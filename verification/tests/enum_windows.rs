use dark_inject::enum_windows::{windows_owned_by, WindowOwner};

#[test]
fn keeps_only_windows_of_the_process() {
    let all = [
        WindowOwner { hwnd: 0x10, owner_pid: 7 },
        WindowOwner { hwnd: 0x20, owner_pid: 8 },
        WindowOwner { hwnd: 0x30, owner_pid: 7 },
    ];
    assert_eq!(windows_owned_by(&all, 7), vec![0x10, 0x30]);
    assert!(windows_owned_by(&all, 9).is_empty());
}

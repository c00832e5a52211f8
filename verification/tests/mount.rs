use hostinfo::mount::{get_mounts, Mount};

#[test]
fn mount_line_parses_all_fields() {
    let m = Mount::new("/dev/sda1 / ext4 rw,relatime,errors=remount-ro 0 1").unwrap();
    assert_eq!(m.source, "/dev/sda1");
    assert_eq!(m.target, "/");
    assert_eq!(m.fs_type, "ext4");
    assert_eq!(m.options, vec!["rw", "relatime", "errors=remount-ro"]);
    assert_eq!(m.dump, 0);
    assert_eq!(m.pass, 1);
}

#[test]
fn mount_line_with_too_few_fields_is_rejected() {
    assert_eq!(Mount::new(""), None);
    assert_eq!(Mount::new("/dev/sda1 / ext4 rw 0"), None);
}

#[test]
fn mount_line_defaults_unparseable_numbers_to_zero() {
    let m = Mount::new("tmpfs /run tmpfs rw x y").unwrap();
    assert_eq!(m.dump, 0);
    assert_eq!(m.pass, 0);
}

#[test]
fn mount_single_option_is_one_piece() {
    let m = Mount::new("proc /proc proc rw 0 0").unwrap();
    assert_eq!(m.options, vec!["rw"]);
}

#[test]
fn mounts_text_parses_line_by_line() {
    let text = "proc /proc proc rw,nosuid 0 0\nshort line\n/dev/sda1 /boot vfat rw 0 2\n";
    let mounts = get_mounts(text);
    assert_eq!(mounts.len(), 2);
    assert_eq!(mounts[0].source, "proc");
    assert_eq!(mounts[0].options, vec!["rw", "nosuid"]);
    assert_eq!(mounts[1].target, "/boot");
    assert_eq!(mounts[1].pass, 2);
}

#[test]
fn mounts_of_empty_text_are_empty() {
    assert_eq!(get_mounts("").len(), 0);
}

use coreos_installer::bls::{
    add_whitespaces, bls_entry_delete_and_append_kargs, bls_entry_write_platform,
    firstboot_kargs_line, is_conf_file_name, platform_edit_needed,
};
use coreos_installer::errors::ErrorKind;

#[test]
fn test_platform_id() {
    let orig_content = "options ignition.platform.id=metal foo bar";
    let new_content = bls_entry_write_platform(orig_content, "openstack").unwrap();
    assert_eq!(new_content, "options ignition.platform.id=openstack foo bar");

    let orig_content = "options foo ignition.platform.id=metal bar";
    let new_content = bls_entry_write_platform(orig_content, "openstack").unwrap();
    assert_eq!(new_content, "options foo ignition.platform.id=openstack bar");

    let orig_content = "options foo bar ignition.platform.id=metal";
    let new_content = bls_entry_write_platform(orig_content, "openstack").unwrap();
    assert_eq!(new_content, "options foo bar ignition.platform.id=openstack");
}

#[test]
fn test_options_edit() {
    let orig_content = "options foo bar foobar";

    let delete_kargs = vec!["foo".into()];
    let new_content =
        bls_entry_delete_and_append_kargs(orig_content, Some(&delete_kargs), None).unwrap();
    assert_eq!(new_content, "options bar foobar\n");

    let delete_kargs = vec!["bar".into()];
    let new_content =
        bls_entry_delete_and_append_kargs(orig_content, Some(&delete_kargs), None).unwrap();
    assert_eq!(new_content, "options foo foobar\n");

    let delete_kargs = vec!["foobar".into()];
    let new_content =
        bls_entry_delete_and_append_kargs(orig_content, Some(&delete_kargs), None).unwrap();
    assert_eq!(new_content, "options foo bar\n");

    let delete_kargs = vec!["bar".into(), "foo".into()];
    let new_content =
        bls_entry_delete_and_append_kargs(orig_content, Some(&delete_kargs), None).unwrap();
    assert_eq!(new_content, "options foobar\n");

    let orig_content = "options foo=val bar baz=val";

    let delete_kargs = vec!["foo=val".into()];
    let new_content =
        bls_entry_delete_and_append_kargs(orig_content, Some(&delete_kargs), None).unwrap();
    assert_eq!(new_content, "options bar baz=val\n");

    let delete_kargs = vec!["baz=val".into()];
    let new_content =
        bls_entry_delete_and_append_kargs(orig_content, Some(&delete_kargs), None).unwrap();
    assert_eq!(new_content, "options foo=val bar\n");

    let orig_content =
        "options foo mitigations=auto,nosmt console=tty0 bar console=ttyS0,115200n8 baz";

    let delete_kargs = vec![
        "mitigations=auto,nosmt".into(),
        "console=ttyS0,115200n8".into(),
    ];
    let append_kargs = vec!["console=ttyS1,115200n8".into()];
    let new_content = bls_entry_delete_and_append_kargs(
        orig_content,
        Some(&delete_kargs),
        Some(&append_kargs),
    )
    .unwrap();
    assert_eq!(
        new_content,
        "options foo console=tty0 bar baz console=ttyS1,115200n8\n"
    );
}

#[test]
fn test_options_edit_whole_file() {
    let orig = "title Fedora CoreOS\nversion 1\noptions foo bar   \nlinux /vmlinuz\n";
    let delete_kargs: Vec<String> = vec!["foo".into()];
    let new_content =
        bls_entry_delete_and_append_kargs(orig, Some(&delete_kargs), None).unwrap();
    assert_eq!(
        new_content,
        "title Fedora CoreOS\nversion 1\noptions bar\nlinux /vmlinuz\n"
    );
}

#[test]
fn test_options_edit_missing_line() {
    let e = bls_entry_delete_and_append_kargs("title x\nlinux /vmlinuz", None, None).unwrap_err();
    assert!(matches!(e.kind, ErrorKind::OptionsLineMissing));

    let e = bls_entry_delete_and_append_kargs("", None, None).unwrap_err();
    assert!(matches!(e.kind, ErrorKind::OptionsLineMissing));
}

#[test]
fn test_options_edit_multiple_lines() {
    let e =
        bls_entry_delete_and_append_kargs("options a\noptions b\n", None, None).unwrap_err();
    assert!(matches!(e.kind, ErrorKind::MultipleOptionsLines));
}

#[test]
fn test_platform_id_metal_is_noop() {
    assert!(!platform_edit_needed("metal"));
    assert!(platform_edit_needed("openstack"));
}

#[test]
fn test_platform_id_token_absent_fails() {
    let e = bls_entry_write_platform("options foo bar", "openstack").unwrap_err();
    assert!(matches!(e.kind, ErrorKind::PlatformTokenNotFound));
}

#[test]
fn test_platform_id_not_idempotent() {
    // The second rewrite with the same target must fail: the token was
    // already replaced. Expected behaviour, not a bug.
    let first = bls_entry_write_platform(
        "options ignition.platform.id=metal foo",
        "openstack",
    )
    .unwrap();
    assert_eq!(first, "options ignition.platform.id=openstack foo");
    let e = bls_entry_write_platform(&first, "openstack").unwrap_err();
    assert!(matches!(e.kind, ErrorKind::PlatformTokenNotFound));
}

#[test]
fn test_add_whitespaces() {
    assert_eq!(add_whitespaces("foo"), " foo ");
    assert_eq!(add_whitespaces(""), "  ");
}

#[test]
fn test_firstboot_kargs_line() {
    assert_eq!(
        firstboot_kargs_line("ip=dhcp rd.neednet=1"),
        "set ignition_network_kcmdline=\"ip=dhcp rd.neednet=1\"\n"
    );
}

#[test]
fn test_options_edit_no_args_trims_lines() {
    // With nothing to delete or append the options content is still
    // normalized: padding trimmed, every line newline-terminated.
    let new_content = bls_entry_delete_and_append_kargs("options   foo  ", None, None).unwrap();
    assert_eq!(new_content, "options foo\n");

    let empty_delete: Vec<String> = Vec::new();
    let new_content =
        bls_entry_delete_and_append_kargs("options foo", Some(&empty_delete), None).unwrap();
    assert_eq!(new_content, "options foo\n");
}

#[test]
fn test_options_edit_crlf_lines() {
    let delete_kargs: Vec<String> = vec!["bar".into()];
    let new_content =
        bls_entry_delete_and_append_kargs("title x\r\noptions foo bar\r\n", Some(&delete_kargs), None)
            .unwrap();
    assert_eq!(new_content, "title x\noptions foo\n");
}

#[test]
fn test_options_edit_append_only() {
    let append_kargs: Vec<String> = vec!["quiet".into(), "splash".into()];
    let new_content =
        bls_entry_delete_and_append_kargs("options root=/dev/vda4", None, Some(&append_kargs))
            .unwrap();
    assert_eq!(new_content, "options root=/dev/vda4 quiet splash\n");
}

#[test]
fn test_conf_file_names() {
    assert!(is_conf_file_name("ostree-1-fedora-coreos.conf"));
    assert!(is_conf_file_name("a.conf"));
    assert!(!is_conf_file_name(".conf"));
    assert!(!is_conf_file_name("conf"));
    assert!(!is_conf_file_name("entry.confx"));
    assert!(!is_conf_file_name("entry.conf.bak"));
}

use passtui::otp_setup::plan;

#[test]
fn chooses_native_packages_without_shell_commands_or_system_upgrades() {
    for (release, expected, package) in [
        ("ID=omarchy\nID_LIKE=arch", "pacman", "oath-toolkit"),
        ("ID=ubuntu\nID_LIKE=debian", "apt-get", "oathtool"),
        ("ID=mint\nID_LIKE=\"ubuntu debian\"", "apt-get", "oathtool"),
        ("ID=fedora", "dnf", "oathtool"),
    ] {
        let plan = plan("linux", release).unwrap();
        assert_eq!(plan.program, expected);
        assert_eq!(plan.args.last(), Some(&package));
        assert!(plan.needs_root);
    }
    assert_eq!(plan("macos", "").unwrap().program, "brew");
    assert!(!plan("macos", "").unwrap().needs_root);
    assert!(plan("linux", "ID=unknown").is_err());
    assert!(plan("windows", "").is_err());
}

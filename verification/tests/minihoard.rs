use plinth::error::AppError;
use plinth::minihoard::launch_guard;
use plinth::minihoard::validated_subcommand;

#[test]
fn only_safe_subcommands_pass_the_whitelist() {
    for allowed in ["list", "download", "get", "config", "where", "whoami"] {
        assert!(validated_subcommand(&[allowed.to_string()]).is_ok());
    }
    for refused in ["login", "logout", "configure", "upgrade", "set-cookie", ""] {
        assert!(
            validated_subcommand(&[refused.to_string()]).is_err(),
            "'{}' must be refused",
            refused
        );
    }
    assert!(validated_subcommand(&[]).is_err());
}

#[test]
fn a_launch_passes_its_guards_in_order() {
    let args = vec!["download".to_string(), "x".to_string()];
    let candidates = vec!["/usr/bin/minihoard".to_string(), "/home/u/.local/bin/minihoard".to_string()];
    let bad = vec!["rm".to_string()];
    assert!(matches!(launch_guard(&bad, "/usr/bin/minihoard", &candidates, true, None), Err(AppError::InvalidInput(_))));
    match launch_guard(&args, "/tmp/minihoard", &candidates, true, None) {
        Err(AppError::InvalidInput(m)) => assert_eq!(m, "Unrecognized minihoard binary path"),
        other => panic!("{:?}", other),
    }
    match launch_guard(&args, "/usr/bin/minihoard", &candidates, false, None) {
        Err(AppError::InvalidInput(m)) => assert_eq!(m, "Unrecognized minihoard binary path"),
        other => panic!("{:?}", other),
    }
    match launch_guard(&args, "/usr//bin/minihoard", &candidates, true, Some(true)) {
        Err(AppError::InvalidInput(m)) => assert_eq!(m, "minihoard is already running — wait or cancel it first"),
        other => panic!("{:?}", other),
    }
    let plan = launch_guard(&args, "/usr//bin/minihoard", &candidates, true, Some(false)).unwrap();
    assert_eq!(plan.subcommand, "download");
    assert!(plan.assume_yes);
    assert!(plan.reap_finished);
    let list = vec!["list".to_string()];
    let plan = launch_guard(&list, "/home/u/.local/bin/minihoard", &candidates, true, None).unwrap();
    assert!(!plan.assume_yes);
    assert!(!plan.reap_finished);
}

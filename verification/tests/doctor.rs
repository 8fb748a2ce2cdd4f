use ghostty_voice_core::doctor::{all_ok, evaluate, CheckStatus, Probes};

#[test]
fn a_reachable_daemon_has_no_problems() {
    let checks = evaluate(&Probes {
        daemon_reachable: true,
    });
    assert!(all_ok(&checks));
    assert_eq!(checks.len(), 1);
}

#[test]
fn an_unreachable_daemon_is_flagged() {
    let checks = evaluate(&Probes {
        daemon_reachable: false,
    });
    assert!(!all_ok(&checks));
    let daemon = checks.iter().find(|c| c.name == "daemon").unwrap();
    assert!(matches!(daemon.status, CheckStatus::Problem(_)));
}

#[test]
fn the_unreachable_problem_says_how_to_start_the_daemon() {
    let checks = evaluate(&Probes {
        daemon_reachable: false,
    });
    assert_eq!(
        checks[0].status,
        CheckStatus::Problem(
            "ghostty-voiced is not reachable on its control socket — start it (e.g. `systemctl --user start ghostty-voiced`)".to_owned()
        )
    );
    assert!(all_ok(&[]));
}

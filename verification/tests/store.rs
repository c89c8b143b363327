use cluster_monitor::store::{
    decimal_string, file_name, resolve, Candidate, ProbeOutcome, Recovery, RecoveryAction, DEFAULT_SIBLING_LIMIT,
    SAVE_FILE_EXT,
};

fn resolved_name(base: &str, ext: &str, found: &[ProbeOutcome]) -> (String, bool) {
    match resolve(&found.to_vec(), DEFAULT_SIBLING_LIMIT) {
        RecoveryAction::Resolved { candidate, fresh } => (file_name(base, ext, candidate), fresh),
        RecoveryAction::Exhausted => panic!("u16 overflow on `{base}.{ext}`"),
        RecoveryAction::Probe(_) => unreachable!(),
    }
}

#[test]
#[allow(non_snake_case)]
fn handle_corrupted_json__once() {
    let (base, ext) = ("2024-12-01", "json.br");
    let (result, fresh) = resolved_name(base, ext, &[ProbeOutcome::Corrupt]);
    assert_eq!("2024-12-01.0.json.br", result);
    assert!(fresh);
}

#[test]
#[allow(non_snake_case)]
fn handle_corrupted_json__multiple() {
    let (base, ext) = ("2024-12-02", "json.br");
    let (result, _) = resolved_name(base, ext, &[ProbeOutcome::Corrupt, ProbeOutcome::Corrupt, ProbeOutcome::Corrupt]);
    assert_eq!("2024-12-02.2.json.br", result);
}

#[test]
#[allow(non_snake_case)]
fn handle_corrupted_json__no_corruption() {
    let (base, ext) = ("2024-12-03", "json.br");
    let (result, fresh) = resolved_name(base, ext, &[ProbeOutcome::Decoded]);
    assert_eq!(format!("{base}.{ext}"), result);
    assert!(!fresh);
}

#[test]
#[allow(non_snake_case)]
fn handle_corrupted_json__mixed_files() {
    let (base, ext) = ("2024-12-04", "json.br");
    let (result, fresh) = resolved_name(base, ext, &[ProbeOutcome::Corrupt, ProbeOutcome::Corrupt, ProbeOutcome::Decoded]);
    assert_eq!(format!("{base}.1.{ext}"), result);
    assert!(!fresh);
}

#[test]
#[should_panic]
#[allow(non_snake_case)]
fn handle_corrupted_json__u16_max_panic_SLOW() {
    let (base, ext) = ("2024-12-05", "json.br");
    let found = vec![ProbeOutcome::Corrupt; 1 + 65_536];
    let _ = resolved_name(base, ext, &found);
}

#[test]
fn no_file_at_all_gives_the_canonical_file_and_the_default() {
    assert_eq!(
        resolve(&vec![], DEFAULT_SIBLING_LIMIT),
        RecoveryAction::Resolved { candidate: Candidate::Canonical, fresh: true }
    );
    assert_eq!(
        resolve(&vec![ProbeOutcome::Missing, ProbeOutcome::Decoded], DEFAULT_SIBLING_LIMIT),
        RecoveryAction::Resolved { candidate: Candidate::Canonical, fresh: true }
    );
    assert_eq!(file_name("2024-12-06", SAVE_FILE_EXT, Candidate::Canonical), "2024-12-06.json.br");
}

#[test]
fn corrupt_canonical_and_sibling_then_valid_sibling() {
    let found = vec![ProbeOutcome::Corrupt, ProbeOutcome::Corrupt, ProbeOutcome::Decoded, ProbeOutcome::Corrupt];
    assert_eq!(
        resolve(&found, DEFAULT_SIBLING_LIMIT),
        RecoveryAction::Resolved { candidate: Candidate::Sibling(1), fresh: false }
    );
    assert_eq!(file_name("base", "ext", Candidate::Sibling(1)), "base.1.ext");
}

#[test]
fn the_last_sibling_within_the_bound_is_still_tried() {
    let mut found = vec![ProbeOutcome::Corrupt; 65_535];
    assert_eq!(
        resolve(&found, DEFAULT_SIBLING_LIMIT),
        RecoveryAction::Resolved { candidate: Candidate::Sibling(65_534), fresh: true }
    );
    found.push(ProbeOutcome::Corrupt);
    assert_eq!(resolve(&found, DEFAULT_SIBLING_LIMIT), RecoveryAction::Exhausted);
    found.push(ProbeOutcome::Decoded);
    assert_eq!(resolve(&found, DEFAULT_SIBLING_LIMIT), RecoveryAction::Exhausted);
}

#[test]
fn the_bound_is_configurable() {
    let found = vec![ProbeOutcome::Corrupt, ProbeOutcome::Corrupt, ProbeOutcome::Corrupt];
    assert_eq!(resolve(&found, 0), RecoveryAction::Exhausted);
    assert_eq!(resolve(&found, 2), RecoveryAction::Exhausted);
    assert_eq!(resolve(&found, 3), RecoveryAction::Resolved { candidate: Candidate::Sibling(2), fresh: true });
    assert_eq!(resolve(&vec![ProbeOutcome::Missing], 0), RecoveryAction::Resolved {
        candidate: Candidate::Canonical,
        fresh: true
    });
    assert_eq!(DEFAULT_SIBLING_LIMIT, u16::MAX);
}

#[test]
fn recovery_walks_candidate_by_candidate() {
    let mut walk = Recovery::new(2);
    assert_eq!(walk.action(), RecoveryAction::Probe(Candidate::Canonical));
    assert_eq!(walk.on_probe(ProbeOutcome::Corrupt), RecoveryAction::Probe(Candidate::Sibling(0)));
    assert_eq!(walk.on_probe(ProbeOutcome::Corrupt), RecoveryAction::Probe(Candidate::Sibling(1)));
    let mut other = walk;
    assert_eq!(walk.on_probe(ProbeOutcome::Corrupt), RecoveryAction::Exhausted);
    assert_eq!(walk.on_probe(ProbeOutcome::Decoded), RecoveryAction::Exhausted);
    assert_eq!(other.on_probe(ProbeOutcome::Decoded), RecoveryAction::Resolved {
        candidate: Candidate::Sibling(1),
        fresh: false
    });
    assert_eq!(other.on_probe(ProbeOutcome::Corrupt), RecoveryAction::Resolved {
        candidate: Candidate::Sibling(1),
        fresh: false
    });
    assert_eq!(other.action(), RecoveryAction::Resolved { candidate: Candidate::Sibling(1), fresh: false });
}

#[test]
fn file_names_and_decimal_numbers() {
    assert_eq!(decimal_string(0), "0");
    assert_eq!(decimal_string(9), "9");
    assert_eq!(decimal_string(10), "10");
    assert_eq!(decimal_string(12345), "12345");
    assert_eq!(decimal_string(u16::MAX), "65535");
    assert_eq!(file_name("2024-12-01", "json.br", Candidate::Sibling(65_534)), "2024-12-01.65534.json.br");
    assert_eq!(file_name("", "", Candidate::Canonical), ".");
    assert_eq!(file_name("", "", Candidate::Sibling(7)), ".7.");
    assert_eq!(SAVE_FILE_EXT, "json.br");
}

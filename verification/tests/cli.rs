use sounding::check_cli;
use sounding::check_cli::CheckArgs;
use sounding::check_cli::CheckOutcome;
use sounding::check_cli::CheckReads;
use sounding::export_cli;
use sounding::export_cli::file_to_write;
use sounding::export_cli::Export;
use sounding::export_cli::ExportArgs;
use sounding::export_cli::ExportOutcome;
use sounding::export_cli::ExportReads;

fn strings(words: &[&str]) -> Vec<String> {
    words.iter().map(|s| s.to_string()).collect()
}

#[test]
fn check_cli_args_parse_the_documented_grammar() {
    let args: Vec<String> = [
        "earthlike",
        "--pack",
        "a.ron",
        "--pack",
        "b.ron",
        "--save",
        "w.json",
    ]
    .iter()
    .map(|s| s.to_string())
    .collect();
    assert_eq!(
        check_cli::parse_args(&args).unwrap(),
        CheckArgs {
            recipe: Some("earthlike".into()),
            packs: vec!["a.ron".into(), "b.ron".into()],
            save: Some("w.json".into()),
        }
    );
    assert_eq!(check_cli::parse_args(&[]).unwrap(), CheckArgs::default());
}

#[test]
fn check_cli_bad_args_are_usage_errors() {
    for bad in [
        vec!["--nope".to_string()],
        vec!["--pack".to_string()],
        vec!["--save".to_string()],
        vec!["a".to_string(), "b".to_string()],
        vec!["--save".into(), "x".into(), "--save".into(), "y".into()],
    ] {
        assert!(check_cli::parse_args(&bad).is_err(), "{bad:?}");
    }
}

#[test]
fn export_cli_args_parse_the_documented_grammar() {
    let args: Vec<String> = ["rocky", "--seed", "42", "--freeze", "--id", "my-rock"]
        .iter()
        .map(|s| s.to_string())
        .collect();
    assert_eq!(
        export_cli::parse_args(&args, None).unwrap(),
        ExportArgs {
            target: "rocky".into(),
            seed: Some(42),
            freeze: true,
            new_id: Some("my-rock".into()),
            packs: vec![],
            out: None,
        }
    );
    let ok: Vec<String> = ["gen-rocky-000000000000002a", "--seed", "42"]
        .iter()
        .map(|s| s.to_string())
        .collect();
    assert!(export_cli::parse_args(&ok, Some(42)).is_ok());
}

#[test]
fn export_cli_bad_args_are_usage_errors() {
    let cases: Vec<(Vec<String>, Option<u64>)> = vec![
        (vec![], None),
        (vec!["--seed".into(), "x".into(), "rocky".into()], None),
        (vec!["rocky".into(), "--nope".into()], None),
        (vec!["a".into(), "b".into()], None),
        (
            vec![
                "gen-rocky-000000000000002a".into(),
                "--seed".into(),
                "7".into(),
            ],
            Some(0x2a),
        ),
    ];
    for (bad, encoded) in cases {
        assert!(export_cli::parse_args(&bad, encoded).is_err(), "{bad:?}");
    }
}

#[test]
fn a_generated_id_carries_its_seed() {
    let line = strings(&["gen-rocky-000000000000002a", "--seed", "7"]);
    let parsed = export_cli::parse_args(&line, None).unwrap();
    assert_eq!(parsed.target, "gen-rocky-000000000000002a");
    assert_eq!(
        export_cli::check_seed(parsed, Some(42)),
        Err("--seed 7 contradicts the id's encoded seed 42 — a generated id IS its seed".to_owned())
    );
    let bare = export_cli::parse_args(&strings(&["gen-rocky-000000000000002a"]), Some(42));
    assert_eq!(bare.unwrap().seed, None);
    let agreed = export_cli::parse_args(&strings(&["x", "--seed", "42"]), Some(42)).unwrap();
    assert_eq!(export_cli::check_seed(agreed, Some(42)).unwrap().seed, Some(42));
}

#[test]
fn check_outcomes_end_in_their_codes() {
    let clean = check_cli::transcript(&CheckOutcome::Report("ok\n".into(), false));
    assert_eq!((clean.out.as_str(), clean.err.as_str(), clean.code), ("ok\n", "", 0));
    let bare = check_cli::transcript(&CheckOutcome::Report("ok\n".into(), true));
    assert_eq!(
        bare.out,
        "ok\nworld save: no scenario state (no body records to check)\n"
    );
    let usage = check_cli::transcript(&CheckOutcome::Usage("no".into()));
    assert_eq!(usage.code, 2);
    assert_eq!(usage.out, "");
    assert!(usage.err.starts_with("no\n"));
    let unreadable = check_cli::transcript(&CheckOutcome::PackUnreadable("p.ron".into(), "gone".into()));
    assert_eq!(unreadable.err, "cannot read pack p.ron: gone\n");
    assert_eq!(unreadable.code, 1);
    let unloadable = check_cli::transcript(&CheckOutcome::SaveUnloadable("w.json".into(), "torn".into()));
    assert_eq!(unloadable.err, "cannot load save w.json: torn\n");
    let refused = check_cli::transcript(&CheckOutcome::Refused("unknown recipe".into()));
    assert_eq!(refused.err, "unknown recipe\n");
}

#[test]
fn a_composition_puts_the_embedded_text_first() {
    let texts = check_cli::composition("base", &strings(&["a", "b"]));
    assert_eq!(texts, strings(&["base", "a", "b"]));
}

#[test]
fn export_outcomes_say_what_was_done() {
    let usage = export_cli::transcript(&ExportOutcome::Usage("why".into()));
    assert!(usage.err.contains("why"));
    let refused = export_cli::transcript(&ExportOutcome::Refused("no such body".into()));
    assert!(refused.err.contains("no such body"));
    assert_ne!(refused.code, 0);
    let pack = export_cli::transcript(&ExportOutcome::PackUnreadable("p".into(), "e".into()));
    assert_eq!(pack.err, "cannot read pack p: e\n");
    let printed = export_cli::transcript(&ExportOutcome::Printed("id".into(), "d1".into(), "pack".into()));
    assert_eq!(printed.out, "pack");
    assert!(printed.err.contains("id") && printed.err.contains("d1"));
    assert_eq!(printed.code, 0);
    let written = export_cli::transcript(&ExportOutcome::Written("id".into(), "d1".into()));
    assert_eq!(written.out, "");
    assert_eq!(written.err, printed.err);
    let stuck = export_cli::transcript(&ExportOutcome::Unwritable(
        "id".into(),
        "d1".into(),
        "o.ron".into(),
        "full".into(),
    ));
    assert!(stuck.err.ends_with("cannot write o.ron: full\n"));
    assert_eq!(stuck.code, 1);
}

#[test]
fn check_arguments_come_in_any_order_and_lines_join() {
    let wanted = || CheckArgs {
        recipe: Some("moon".into()),
        packs: vec!["a".into(), "b".into()],
        save: Some("w".into()),
    };
    for line in [
        ["--save", "w", "--pack", "a", "moon", "--pack", "b"],
        ["--pack", "a", "--pack", "b", "--save", "w", "moon"],
        ["moon", "--pack", "a", "--save", "w", "--pack", "b"],
    ] {
        assert_eq!(check_cli::parse_args(&strings(&line)).unwrap(), wanted());
    }
    let bad = strings(&["--nope"]);
    let worse = strings(&["--nope", "--pack", "a"]);
    assert_eq!(check_cli::parse_args(&bad), check_cli::parse_args(&worse));
    assert!(check_cli::parse_args(&strings(&["--pack"])).is_err());
    assert!(check_cli::parse_args(&strings(&["--pack", "a"])).is_ok());
}

/// A check on which everything works.
fn clean_reads() -> CheckReads {
    CheckReads {
        packs: Ok(vec![]),
        catalog: Ok(()),
        save: Ok(true),
        report: Ok("report\n".to_string()),
    }
}

#[test]
fn a_check_takes_its_first_failure() {
    let line = strings(&["--pack", "a", "--save", "w"]);
    let bad = || CheckReads {
        packs: Err(("a".to_string(), "gone".to_string())),
        catalog: Err("clash".to_string()),
        save: Err("torn".to_string()),
        report: Err("unknown".to_string()),
    };
    let usage = check_cli::run(&strings(&["--nope"]), bad());
    assert_eq!((usage.code, usage.out.as_str()), (2, ""));
    assert!(usage.err.starts_with("unknown flag `--nope`\nusage:"));
    let steps = [
        (bad(), "cannot read pack a: gone\n"),
        (
            CheckReads {
                packs: Ok(vec![]),
                ..bad()
            },
            "clash\n",
        ),
        (
            CheckReads {
                packs: Ok(vec![]),
                catalog: Ok(()),
                ..bad()
            },
            "cannot load save w: torn\n",
        ),
        (
            CheckReads {
                report: Err("unknown".to_string()),
                ..clean_reads()
            },
            "unknown\n",
        ),
    ];
    for (reads, err) in steps {
        let t = check_cli::run(&line, reads);
        assert_eq!((t.code, t.out.as_str(), t.err.as_str()), (1, "", err));
    }
    let t = check_cli::run(&line, clean_reads());
    assert_eq!((t.code, t.out.as_str(), t.err.as_str()), (0, "report\n", ""));
}

#[test]
fn a_check_without_packs_or_save_does_not_miss_them() {
    let reads = CheckReads {
        catalog: Err("clash".to_string()),
        save: Err("torn".to_string()),
        ..clean_reads()
    };
    let t = check_cli::run(&strings(&["moon"]), reads);
    assert_eq!((t.code, t.out.as_str()), (0, "report\n"));
    let bare = CheckReads {
        save: Ok(false),
        ..clean_reads()
    };
    let t = check_cli::run(&strings(&["--save", "w"]), bare);
    assert_eq!(
        t.out,
        "report\nworld save: no scenario state (no body records to check)\n"
    );
}

/// An export on which everything works.
fn export_reads() -> ExportReads {
    ExportReads {
        encoded: None,
        packs: Ok(vec![]),
        export: Ok(Export {
            record_id: "rock".to_string(),
            digest: "d1".to_string(),
            pack: "(pack)".to_string(),
        }),
        write: Ok(()),
    }
}

#[test]
fn an_export_prints_or_writes() {
    let receipt = "verified: record `rock` resolves with digest d1\n";
    let printed = export_cli::run(&strings(&["rocky"]), export_reads());
    assert_eq!(
        (printed.code, printed.out.as_str(), printed.err.as_str()),
        (0, "(pack)", receipt)
    );
    let to_file = strings(&["rocky", "--out", "o.ron"]);
    let written = export_cli::run(&to_file, export_reads());
    assert_eq!(
        (written.code, written.out.as_str(), written.err.as_str()),
        (0, "", receipt)
    );
    let full = ExportReads {
        write: Err("full".to_string()),
        ..export_reads()
    };
    let stuck = export_cli::run(&to_file, full);
    assert_eq!(stuck.code, 1);
    assert_eq!(stuck.err, format!("{receipt}cannot write o.ron: full\n"));
    let args = export_cli::parse_args(&to_file, None).unwrap();
    let export = export_reads().export;
    assert_eq!(file_to_write(&args, &export), Some(("o.ron", "(pack)")));
    assert_eq!(file_to_write(&args, &Err("no".to_string())), None);
    let bare = export_cli::parse_args(&strings(&["rocky"]), None).unwrap();
    assert_eq!(file_to_write(&bare, &export), None);
}

#[test]
fn an_export_takes_its_first_failure() {
    let bad = || ExportReads {
        encoded: Some(42),
        packs: Err(("a".to_string(), "gone".to_string())),
        export: Err("no such body".to_string()),
        write: Err("full".to_string()),
    };
    let line = strings(&["gen-rocky-000000000000002a", "--seed", "7", "--out", "o"]);
    assert_eq!(export_cli::run(&line, bad()).code, 2);
    let line = strings(&["gen-rocky-000000000000002a", "--seed", "42", "--out", "o"]);
    let t = export_cli::run(&line, bad());
    assert_eq!((t.code, t.err.as_str()), (1, "cannot read pack a: gone\n"));
    let read = ExportReads {
        packs: Ok(vec![]),
        ..bad()
    };
    let t = export_cli::run(&line, read);
    assert_eq!((t.code, t.out.as_str(), t.err.as_str()), (1, "", "no such body\n"));
}

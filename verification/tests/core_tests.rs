use track2line::{Error, ListForCheck, PathSet, PathSets, PlanState};

#[test]
fn preview_example() {
    let files = vec![
        "work/a.wav".to_string(),
        "work/a.txt".to_string(),
        "work/b.wav".to_string(),
        "work/c.wav".to_string(),
        "work/c.txt".to_string(),
    ];
    let contents = vec![Some("Hello World".to_string()), None, Some("   ".to_string())];
    let sets = PathSets::new(
        "work".to_string(),
        "wav".to_string(),
        "txt".to_string(),
        files,
        contents,
    )
    .unwrap();
    let list = sets.check().unwrap();
    assert_eq!(list.0.len(), 3);
    assert_eq!(
        list.0[0],
        (Some("a.wav".to_string()), Some("Hello World.wav".to_string()))
    );
    assert_eq!(
        list.0[1],
        (Some("b.wav".to_string()), Some("empty_0.wav".to_string()))
    );
    assert_eq!(
        list.0[2],
        (Some("c.wav".to_string()), Some("empty_1.wav".to_string()))
    );
}

#[test]
fn planned_moves_target_renamed_dir() {
    let files = vec![
        "work/a.wav".to_string(),
        "work/a.txt".to_string(),
        "work/b.wav".to_string(),
        "work/c.wav".to_string(),
        "work/c.txt".to_string(),
    ];
    let contents = vec![Some("Hello World".to_string()), None, Some("   ".to_string())];
    let sets = PathSets::new(
        "work".to_string(),
        "wav".to_string(),
        "txt".to_string(),
        files,
        contents,
    )
    .unwrap();
    assert_eq!(sets.renamed_dir(), "work/renamed");
    let moves = sets.rename_moves();
    assert_eq!(moves.len(), 3);
    assert_eq!(
        moves[0],
        Some((
            "work/a.wav".to_string(),
            "work/renamed/Hello World.wav".to_string()
        ))
    );
    assert_eq!(
        moves[1],
        Some((
            "work/b.wav".to_string(),
            "work/renamed/empty_0.wav".to_string()
        ))
    );
    assert_eq!(
        moves[2],
        Some((
            "work/c.wav".to_string(),
            "work/renamed/empty_1.wav".to_string()
        ))
    );
}

#[test]
fn failed_rename_clears_only_that_plan() {
    let files = vec![
        "work/a.wav".to_string(),
        "work/a.txt".to_string(),
        "work/b.wav".to_string(),
        "work/c.wav".to_string(),
        "work/c.txt".to_string(),
    ];
    let contents = vec![Some("Hello World".to_string()), None, Some("   ".to_string())];
    let mut sets = PathSets::new(
        "work".to_string(),
        "wav".to_string(),
        "txt".to_string(),
        files,
        contents,
    )
    .unwrap();
    sets.apply_rename_results(&vec![true, false, true]);
    let list = sets.check().unwrap();
    assert_eq!(list.0[0].1, Some("Hello World.wav".to_string()));
    assert_eq!(list.0[1].1, None);
    assert_eq!(list.0[2].1, Some("empty_1.wav".to_string()));
    let moves = sets.rename_moves();
    assert!(moves[0].is_some());
    assert!(moves[1].is_none());
    assert!(moves[2].is_some());
}

#[test]
fn cleared_plan_is_never_reset() {
    let files = vec!["work/a.wav".to_string(), "work/b.wav".to_string()];
    let contents = vec![None, None];
    let mut sets = PathSets::new(
        "work".to_string(),
        "wav".to_string(),
        "txt".to_string(),
        files,
        contents,
    )
    .unwrap();
    sets.apply_rename_results(&vec![false, true]);
    assert_eq!(sets.check().unwrap().0[0].1, None);
    sets.apply_rename_results(&vec![true, true]);
    assert_eq!(sets.check().unwrap().0[0].1, None);
    assert_eq!(
        sets.check().unwrap().0[1].1,
        Some("empty_1.wav".to_string())
    );
}

#[test]
fn entry_count_matches_audio_files() {
    let files = vec![
        "a.wav".to_string(),
        "b.wav".to_string(),
        "b.txt".to_string(),
        "notes.md".to_string(),
        "c.wav".to_string(),
        "README".to_string(),
    ];
    let contents = vec![None, Some("text".to_string()), None];
    let sets = PathSets::new(
        "dir".to_string(),
        "wav".to_string(),
        "txt".to_string(),
        files,
        contents,
    )
    .unwrap();
    assert_eq!(sets.check().unwrap().0.len(), 3);
}

#[test]
fn placeholders_count_up_in_scan_order() {
    let files = vec![
        "x1.wav".to_string(),
        "x2.wav".to_string(),
        "x3.wav".to_string(),
        "x4.wav".to_string(),
    ];
    let contents = vec![
        None,
        Some("Yo".to_string()),
        Some(" \t\n".to_string()),
        None,
    ];
    let sets = PathSets::new(
        "d".to_string(),
        "wav".to_string(),
        "txt".to_string(),
        files,
        contents,
    )
    .unwrap();
    let list = sets.check().unwrap();
    assert_eq!(list.0[0].1, Some("empty_0.wav".to_string()));
    assert_eq!(list.0[1].1, Some("Yo.wav".to_string()));
    assert_eq!(list.0[2].1, Some("empty_1.wav".to_string()));
    assert_eq!(list.0[3].1, Some("empty_2.wav".to_string()));
}

#[test]
fn labels_clipped_to_twenty_and_trimmed() {
    let files = vec!["d/long.wav".to_string(), "d/padded.wav".to_string()];
    let contents = vec![
        Some("This is a very long transcript line".to_string()),
        Some("  Hello  ".to_string()),
    ];
    let sets = PathSets::new(
        "d".to_string(),
        "wav".to_string(),
        "txt".to_string(),
        files,
        contents,
    )
    .unwrap();
    let list = sets.check().unwrap();
    // the first 20 characters are "This is a very long ", whose trailing
    // space is then trimmed
    assert_eq!(list.0[0].1, Some("This is a very long.wav".to_string()));
    assert_eq!(list.0[1].1, Some("Hello.wav".to_string()));
}

#[test]
fn label_with_dot_loses_its_tail_in_destination() {
    let files = vec!["d/pi.wav".to_string()];
    let contents = vec![Some("3.14 is pi".to_string())];
    let sets = PathSets::new(
        "d".to_string(),
        "wav".to_string(),
        "txt".to_string(),
        files,
        contents,
    )
    .unwrap();
    // replacing the extension treats everything after the label's last dot
    // as an extension to cut off
    assert_eq!(sets.check().unwrap().0[0].1, Some("3.wav".to_string()));
}

#[test]
fn labels_count_unicode_characters() {
    let files = vec!["d/jp.wav".to_string()];
    let contents = vec![Some(
        "あいうえおかきくけこさしすせそたちつてとなにぬねの".to_string(),
    )];
    let sets = PathSets::new(
        "d".to_string(),
        "wav".to_string(),
        "txt".to_string(),
        files,
        contents,
    )
    .unwrap();
    assert_eq!(
        sets.check().unwrap().0[0].1,
        Some("あいうえおかきくけこさしすせそたちつてと.wav".to_string())
    );
}

#[test]
fn malformed_extensions_are_rejected() {
    let r = PathSets::new(
        "d".to_string(),
        "".to_string(),
        "txt".to_string(),
        vec![],
        vec![],
    );
    assert!(matches!(r, Err(Error::ExtensionError)));
    let r = PathSets::new(
        "d".to_string(),
        "wav".to_string(),
        "t.t".to_string(),
        vec![],
        vec![],
    );
    assert!(matches!(r, Err(Error::ExtensionError)));
    let r = PathSets::new(
        "d".to_string(),
        "w/v".to_string(),
        "txt".to_string(),
        vec![],
        vec![],
    );
    assert!(matches!(r, Err(Error::ExtensionError)));
}

#[test]
fn well_formed_extensions_are_accepted() {
    let r = PathSets::new(
        "d".to_string(),
        "wav".to_string(),
        "txt".to_string(),
        vec![],
        vec![],
    );
    assert!(r.is_ok());
    assert_eq!(r.unwrap().check().unwrap().0.len(), 0);
}

#[test]
fn transcription_lines_become_labels() {
    let files = vec!["work/a.wav".to_string(), "work/b.wav".to_string()];
    let lines = vec!["Spoken words here".to_string(), "".to_string()];
    let sets = PathSets::new_transcription(
        "work".to_string(),
        "wav".to_string(),
        "txt".to_string(),
        files,
        lines,
    )
    .unwrap();
    let list = sets.check().unwrap();
    assert_eq!(list.0[0].1, Some("Spoken words here.wav".to_string()));
    assert_eq!(list.0[1].1, Some("empty_0.wav".to_string()));
}

#[test]
fn duplicate_labels_plan_the_same_destination() {
    let files = vec!["d/a.wav".to_string(), "d/b.wav".to_string()];
    let contents = vec![Some("same".to_string()), Some("same".to_string())];
    let sets = PathSets::new(
        "d".to_string(),
        "wav".to_string(),
        "txt".to_string(),
        files,
        contents,
    )
    .unwrap();
    let moves = sets.rename_moves();
    let d0 = moves[0].clone().unwrap().1;
    let d1 = moves[1].clone().unwrap().1;
    assert_eq!(d0, d1);
}

#[test]
fn preview_renders_padded_lines() {
    let list = ListForCheck(vec![
        (
            Some("a.wav".to_string()),
            Some("Hello World.wav".to_string()),
        ),
        (None, None),
        (Some("abcdefghijklmnopqrstuvwxyz.wav".to_string()), None),
    ]);
    let expected = "* a.wav                ---> Hello World.wav\n* None                 ---> None\n* abcdefghijklmnopqrst ---> None\n";
    assert_eq!(list.render(), expected);
}

#[test]
fn path_set_starts_unplanned() {
    let e = PathSet::new("d/a.wav".to_string(), "Hi".to_string());
    assert_eq!(e.audio_path, "d/a.wav");
    assert_eq!(e.line, "Hi");
    assert!(matches!(e.planned_destination, PlanState::Unplanned));
    assert_eq!(e.describe(), "Audio: d/a.wav\nLine: Hi\n");
}

#[test]
fn empty_check_list_renders_nothing() {
    let list = ListForCheck::new();
    assert_eq!(list.0.len(), 0);
    assert_eq!(list.render(), "");
}

#[test]
fn describe_lists_every_entry() {
    let files = vec!["work/a.wav".to_string(), "work/b.wav".to_string()];
    let contents = vec![Some("Hi".to_string()), None];
    let sets = PathSets::new(
        "work".to_string(),
        "wav".to_string(),
        "txt".to_string(),
        files,
        contents,
    )
    .unwrap();
    assert_eq!(
        sets.describe(),
        "Audio: work/a.wav\nLine: Hi\n\nAudio: work/b.wav\nLine: empty_0\n\n"
    );
}

#[test]
fn error_messages_match_display_texts() {
    assert_eq!(Error::ExtensionError.message(), "extension error");
    assert_eq!(Error::IoError("boom".to_string()).message(), "boom");
    assert_eq!(
        Error::FailedCreateRenamedFolder("x".to_string()).message(),
        "failed create renamed folderx"
    );
    assert_eq!(Error::NoParent.message(), "no parent");
}

use snippet_telemetry::snippets_collection::{
    snippet_accepted, snippet_register, snippet_register_from_data4cache, sources_changed,
    sources_changed_at, CodeCompletionInputs, CodeCompletionPost, CompletionSaveToCache,
    CursorPosition, SaveSnippet, Storage,
};

fn post_for(file: &str, content: &str) -> CodeCompletionPost {
    CodeCompletionPost {
        model: "test-model".to_string(),
        inputs: CodeCompletionInputs {
            sources: vec![(file.to_string(), content.to_string())],
            cursor: CursorPosition { file: file.to_string(), line: 0, character: 0 },
        },
    }
}

#[test]
fn ids_are_unique_and_increasing() {
    let mut storage = Storage::new();
    let ss = SaveSnippet::new(&post_for("main.py", "foo\n"));
    let a = snippet_register(&mut storage, &ss, "one\n".to_string());
    let b = snippet_register(&mut storage, &ss, "two\n".to_string());
    let c = snippet_register(&mut storage, &ss, "three\n".to_string());
    assert!(a < b && b < c);
    assert_ne!(a, b);
    assert_ne!(a, c);
    assert_ne!(b, c);
    assert_eq!(storage.tele_snippets.len(), 3);
}

#[test]
fn register_skipped_without_finish_reason() {
    let mut storage = Storage::new();
    let ss = SaveSnippet::new(&post_for("main.py", "foo\n"));
    let mut cache = CompletionSaveToCache {
        completion0_text: "bar\n".to_string(),
        completion0_finish_reason: "".to_string(),
        completion0_snippet_telemetry_id: None,
    };
    snippet_register_from_data4cache(&mut storage, &ss, &mut cache);
    assert!(cache.completion0_snippet_telemetry_id.is_none());
    assert_eq!(storage.tele_snippets.len(), 0);
}

#[test]
fn register_assigns_id_with_finish_reason() {
    let mut storage = Storage::new();
    let ss = SaveSnippet::new(&post_for("main.py", "foo\n"));
    let mut cache = CompletionSaveToCache {
        completion0_text: "bar\n".to_string(),
        completion0_finish_reason: "stop".to_string(),
        completion0_snippet_telemetry_id: None,
    };
    snippet_register_from_data4cache(&mut storage, &ss, &mut cache);
    assert_eq!(cache.completion0_snippet_telemetry_id, Some(1));
    assert_eq!(storage.tele_snippets.len(), 1);
    assert_eq!(storage.tele_snippets[0].grey_text, "bar\n");
    assert_eq!(storage.tele_snippets[0].accepted_ts, 0);
    assert_eq!(storage.tele_snippets[0].finished_ts, 0);
    assert!(storage.tele_snippets[0].remaining_percentage.is_none());
}

#[test]
fn accept_unknown_id_is_rejected_without_change() {
    let mut storage = Storage::new();
    let ss = SaveSnippet::new(&post_for("main.py", "foo\n"));
    let id = snippet_register(&mut storage, &ss, "bar\n".to_string());
    let before_created = storage.tele_snippets[0].created_ts;
    assert!(!snippet_accepted(&mut storage, id + 999));
    assert_eq!(storage.tele_snippets.len(), 1);
    assert_eq!(storage.tele_snippets[0].created_ts, before_created);
    assert_eq!(storage.tele_snippets[0].accepted_ts, 0);
}

#[test]
fn accept_twice_still_succeeds() {
    let mut storage = Storage::new();
    let ss = SaveSnippet::new(&post_for("main.py", "foo\n"));
    let id = snippet_register(&mut storage, &ss, "bar\n".to_string());
    assert!(snippet_accepted(&mut storage, id));
    let first = storage.tele_snippets[0].accepted_ts;
    assert!(first >= 1);
    assert!(snippet_accepted(&mut storage, id));
    assert!(storage.tele_snippets[0].accepted_ts >= 1);
}

#[test]
fn attributable_change_updates_score() {
    let mut storage = Storage::new();
    let ss = SaveSnippet::new(&post_for("main.py", "foo\n"));
    let id = snippet_register(&mut storage, &ss, "bar\n".to_string());
    assert!(snippet_accepted(&mut storage, id));
    let uri = "file:///home/user/main.py".to_string();
    let finished = sources_changed_at(&mut storage, &uri, &"foobar\n".to_string(), 100);
    assert!(finished.is_empty());
    let snip = &storage.tele_snippets[0];
    assert!(snip.remaining_percentage.is_some());
    assert_eq!(snip.finished_ts, 0);
    assert!(snip.accepted_ts >= 1);
}

#[test]
fn abandonment_without_score_resets_acceptance() {
    let mut storage = Storage::new();
    let ss = SaveSnippet::new(&post_for("main.py", "foo\n"));
    let id = snippet_register(&mut storage, &ss, "bar\n".to_string());
    assert!(snippet_accepted(&mut storage, id));
    let uri = "file:///home/user/main.py".to_string();
    // two separate edit regions: never attributable, and no prior score
    let finished = sources_changed_at(&mut storage, &uri, &"AAA\nBBB\n".to_string(), 100);
    assert!(finished.is_empty());
    let snip = &storage.tele_snippets[0];
    assert_eq!(snip.accepted_ts, 0);
    assert_eq!(snip.finished_ts, 0);
    assert!(snip.remaining_percentage.is_none());
}

#[test]
fn finalization_with_score_is_delivered_once() {
    let mut storage = Storage::new();
    let ss = SaveSnippet::new(&post_for("main.py", "foo\n"));
    let id = snippet_register(&mut storage, &ss, "bar\n".to_string());
    assert!(snippet_accepted(&mut storage, id));
    let uri = "file:///home/user/main.py".to_string();
    let finished1 = sources_changed_at(&mut storage, &uri, &"foobar\n".to_string(), 100);
    assert!(finished1.is_empty());
    assert!(storage.tele_snippets[0].remaining_percentage.is_some());
    let finished2 = sources_changed_at(&mut storage, &uri, &"AAA\nBBB\n".to_string(), 200);
    assert_eq!(finished2.len(), 1);
    assert_eq!(finished2[0].snippet_telemetry_id, id);
    assert_eq!(finished2[0].finished_ts, 200);
    assert_eq!(storage.tele_snippets[0].finished_ts, 200);
    // a later event neither finalizes nor touches the record again
    let finished3 = sources_changed_at(&mut storage, &uri, &"CCC\nDDD\n".to_string(), 300);
    assert!(finished3.is_empty());
    assert_eq!(storage.tele_snippets[0].finished_ts, 200);
}

#[test]
fn unrelated_uri_is_ignored() {
    let mut storage = Storage::new();
    let ss = SaveSnippet::new(&post_for("main.py", "foo\n"));
    let id = snippet_register(&mut storage, &ss, "bar\n".to_string());
    assert!(snippet_accepted(&mut storage, id));
    let uri = "file:///home/user/other.py".to_string();
    let finished = sources_changed_at(&mut storage, &uri, &"whatever\n".to_string(), 100);
    assert!(finished.is_empty());
    let snip = &storage.tele_snippets[0];
    assert!(snip.accepted_ts >= 1);
    assert!(snip.remaining_percentage.is_none());
}

#[test]
fn missing_source_snapshot_is_ignored() {
    let mut storage = Storage::new();
    let post = CodeCompletionPost {
        model: "test-model".to_string(),
        inputs: CodeCompletionInputs {
            sources: vec![("unrelated.py".to_string(), "zzz\n".to_string())],
            cursor: CursorPosition { file: "main.py".to_string(), line: 0, character: 0 },
        },
    };
    let ss = SaveSnippet::new(&post);
    let id = snippet_register(&mut storage, &ss, "bar\n".to_string());
    assert!(snippet_accepted(&mut storage, id));
    let uri = "file:///home/user/main.py".to_string();
    let finished = sources_changed_at(&mut storage, &uri, &"foobar\n".to_string(), 100);
    assert!(finished.is_empty());
    assert!(storage.tele_snippets[0].remaining_percentage.is_none());
}

#[test]
fn wall_clock_entry_point_works() {
    let mut storage = Storage::new();
    let ss = SaveSnippet::new(&post_for("main.py", "foo\n"));
    let id = snippet_register(&mut storage, &ss, "bar\n".to_string());
    assert!(snippet_accepted(&mut storage, id));
    let uri = "file:///home/user/main.py".to_string();
    let finished = sources_changed(&mut storage, &uri, &"foobar\n".to_string());
    assert!(finished.is_empty());
    assert!(storage.tele_snippets[0].remaining_percentage.is_some());
}

use bplus::archive::{
    Archive, ArchiveConversation, ArchiveMessage, ArchiveNote, ArchiveScan, RawHit, diversify,
    context_window, format_transcript, search_archive, search_archives, sort_hits, raw_hits,
    fts_match_query,
};

fn hit(id: i64, conv: i64, date: &str) -> RawHit {
    RawHit { id, conversation_id: conv, created_at: date.to_string() }
}

fn msg(id: i64, conv: i64, role: &str, content: &str, date: &str) -> ArchiveMessage {
    ArchiveMessage {
        id,
        conversation_id: conv,
        role: role.to_string(),
        content: content.to_string(),
        created_at: date.to_string(),
    }
}

#[test]
fn diversity_keeps_first_hit_per_conversation() {
    // Conversations A,A,A,B,C,B in recency order: one hit for A (the first
    // seen), one for B, one for C, in that relative order.
    let a = 1;
    let b = 2;
    let c = 3;
    let hits = vec![
        hit(10, a, "2024-06-06"),
        hit(11, a, "2024-06-05"),
        hit(12, a, "2024-06-04"),
        hit(13, b, "2024-06-03"),
        hit(14, c, "2024-06-02"),
        hit(15, b, "2024-06-01"),
    ];
    let out = diversify(&hits);
    assert_eq!(out.len(), 3);
    assert_eq!(out[0].conversation_id, a);
    assert_eq!(out[0].id, 10);
    assert_eq!(out[1].conversation_id, b);
    assert_eq!(out[1].id, 13);
    assert_eq!(out[2].conversation_id, c);
    assert_eq!(out[2].id, 14);
}

#[test]
fn hits_sort_newest_first() {
    let hits = vec![
        hit(1, 1, "2024-01-02 10:00:00"),
        hit(2, 2, "2024-03-01 09:00:00"),
        hit(3, 3, "2024-01-02 10:00:00"),
    ];
    let out = sort_hits(hits);
    assert_eq!(out[0].id, 2);
    // equal timestamps keep input order
    assert_eq!(out[1].id, 1);
    assert_eq!(out[2].id, 3);
}

#[test]
fn context_window_spans_three_ids_each_way() {
    // Messages m-5..m+5 around a hit on m: the window holds m-3..m+3
    // inclusive and leaves out m-4 and m+4.
    let m = 100;
    let conv = 9;
    let mut messages = Vec::new();
    let mut id = m - 5;
    while id <= m + 5 {
        messages.push(msg(id, conv, "user", "text", "2024-01-01"));
        id += 1;
    }
    // a sibling conversation never enters the window
    messages.push(msg(m, 8, "user", "other conversation", "2024-01-01"));
    let window = context_window(&messages, conv, m);
    assert_eq!(window.len(), 7);
    assert_eq!(window[0].id, m - 3);
    assert_eq!(window[6].id, m + 3);
    for w in &window {
        assert_eq!(w.conversation_id, conv);
        assert!(w.id >= m - 3 && w.id <= m + 3);
    }
}

#[test]
fn transcript_labels_roles_and_dates() {
    let window = vec![
        msg(1, 1, "user", "hello", "2024-01-01 08:00:00"),
        msg(2, 1, "assistant", "hi there", "2024-01-01 08:00:05"),
    ];
    let transcript = format_transcript(&window);
    assert_eq!(
        transcript,
        "(2024-01-01 08:00:00) USER: hello\n\n(2024-01-01 08:00:05) ASSISTANT: hi there"
    );
}

fn small_archive() -> Archive {
    Archive {
        filename: "old.db".to_string(),
        conversations: vec![
            ArchiveConversation { id: 1, title: "Rust talk".to_string() },
            ArchiveConversation { id: 2, title: "Cooking".to_string() },
        ],
        messages: vec![
            msg(1, 1, "user", "tell me about rust ownership", "2024-01-01 08:00:00"),
            msg(2, 1, "assistant", "ownership moves values", "2024-01-01 08:00:10"),
            msg(3, 2, "user", "how to cook rice", "2024-02-01 09:00:00"),
            msg(4, 2, "assistant", "rinse the rice first", "2024-02-01 09:00:10"),
        ],
        notes: vec![ArchiveNote {
            conversation_id: 1,
            content: "summary of the rust discussion".to_string(),
            updated_at: "2024-01-02".to_string(),
        }],
    }
}

#[test]
fn archive_search_notes_then_hits() {
    let out = search_archive(&small_archive(), "rust");
    // one matching note, then one diversified message hit (conversation 1)
    assert_eq!(out.len(), 2);
    assert_eq!(out[0].title, "[Local: old.db] NOTE: Rust talk");
    assert_eq!(out[0].url, "local://old.db/notes/Rust talk");
    assert_eq!(
        out[0].content,
        "(Summary updated: 2024-01-02) summary of the rust discussion"
    );
    assert_eq!(out[0].engine, "LocalDB");
    assert_eq!(out[1].title, "[Local: old.db] Chat: Rust talk");
    assert_eq!(out[1].url, "local://old.db/chat/Rust talk/1");
    assert_eq!(
        out[1].content,
        "(2024-01-01 08:00:00) USER: tell me about rust ownership\n\n(2024-01-01 08:00:10) ASSISTANT: ownership moves values"
    );
    assert_eq!(out[1].engine, "LocalDB");
}

#[test]
fn archive_note_matches_by_conversation_title_too() {
    // the note's own text has no "Cooking", but its conversation title does
    let mut archive = small_archive();
    archive.notes = vec![ArchiveNote {
        conversation_id: 2,
        content: "rice techniques".to_string(),
        updated_at: "2024-02-02".to_string(),
    }];
    let out = search_archive(&archive, "Cooking");
    assert_eq!(out.len(), 1);
    assert_eq!(out[0].title, "[Local: old.db] NOTE: Cooking");
}

#[test]
fn notes_stage_caps_at_three() {
    let mut archive = small_archive();
    archive.notes = (0..5)
        .map(|k| ArchiveNote {
            conversation_id: 1,
            content: format!("rust note {}", k),
            updated_at: "2024-01-02".to_string(),
        })
        .collect();
    archive.messages = Vec::new();
    let out = search_archive(&archive, "rust");
    assert_eq!(out.len(), 3);
    assert_eq!(out[0].content, "(Summary updated: 2024-01-02) rust note 0");
    assert_eq!(out[2].content, "(Summary updated: 2024-01-02) rust note 2");
}

#[test]
fn raw_hits_order_by_recency() {
    let archive = small_archive();
    // three of the four messages contain "o"; newest first
    let hits = raw_hits(&archive, "o");
    assert_eq!(hits.len(), 3);
    assert_eq!(hits[0].id, 3);
    assert_eq!(hits[1].id, 2);
    assert_eq!(hits[2].id, 1);
}

#[test]
fn missing_conversation_title_defaults() {
    let archive = Archive {
        filename: "x.db".to_string(),
        conversations: Vec::new(),
        messages: vec![msg(5, 77, "user", "find me", "2024-05-05")],
        notes: Vec::new(),
    };
    let out = search_archive(&archive, "find");
    assert_eq!(out.len(), 1);
    assert_eq!(out[0].title, "[Local: x.db] Chat: Chat");
    assert_eq!(out[0].url, "local://x.db/chat/Chat/5");
}

#[test]
fn index_hits_drive_the_message_stage() {
    // An archive with a full-text index is matched by the index, not by
    // substring: its hits stand in even where the message text does not
    // contain the query verbatim, and the library still orders, caps,
    // diversifies and expands them.
    let archive = small_archive();
    // the token match found the cooking conversation for "cooked", which no
    // message contains as a substring
    let scans = vec![ArchiveScan {
        archive,
        index_hits: Some(vec![hit(3, 2, "2024-02-01 09:00:00")]),
    }];
    let out = search_archives(&scans, "cooked");
    assert_eq!(out.len(), 1);
    assert_eq!(out[0].title, "[Local: old.db] Chat: Cooking");
    assert_eq!(out[0].url, "local://old.db/chat/Cooking/3");
    assert!(out[0].content.contains("how to cook rice"));
}

#[test]
fn archives_without_index_match_by_substring() {
    let scans = vec![ArchiveScan { archive: small_archive(), index_hits: None }];
    let out = search_archives(&scans, "rust");
    // same answer as the direct substring search
    let direct = search_archive(&small_archive(), "rust");
    assert_eq!(out.len(), direct.len());
    assert_eq!(out[0].title, direct[0].title);
    assert_eq!(out[1].url, direct[1].url);
}

#[test]
fn index_hits_are_diversified_and_capped() {
    let archive = small_archive();
    // two hits in the same conversation: only the first (most recent) stays
    let scans = vec![ArchiveScan {
        archive,
        index_hits: Some(vec![
            hit(2, 1, "2024-01-01 08:00:10"),
            hit(1, 1, "2024-01-01 08:00:00"),
        ]),
    }];
    let out = search_archives(&scans, "anything");
    assert_eq!(out.len(), 1);
    assert_eq!(out[0].url, "local://old.db/chat/Rust talk/2");
}

#[test]
fn fts_query_strips_quotes() {
    assert_eq!(fts_match_query("say \"hello\" twice"), "say hello twice");
    assert_eq!(fts_match_query("plain"), "plain");
}

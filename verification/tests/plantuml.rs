use kozue::diag::Diagnostic;
use kozue::ir::{
    ArrowType, Diagram, Endpoint, LineStyle, Participant, SequenceDiagram, SequenceItem, State,
    StateDiagram,
};
use kozue::plantuml::parse;

trait HasId {
    fn key(&self) -> &str;
}

impl HasId for Participant {
    fn key(&self) -> &str {
        &self.id
    }
}

impl HasId for State {
    fn key(&self) -> &str {
        &self.id
    }
}

fn by_id<'a, T: HasId>(items: &'a [T], id: &str) -> &'a T {
    items.iter().find(|item| item.key() == id).expect("no such id")
}

fn has_id<T: HasId>(items: &[T], id: &str) -> bool {
    items.iter().any(|item| item.key() == id)
}


fn parse_ok(src: &str) -> SequenceDiagram {
    match parse(src).expect("should parse without errors") {
        Diagram::Sequence(s) => s,
        _ => panic!("expected Sequence diagram"),
    }
}

fn parse_err(src: &str) -> Vec<Diagnostic> {
    parse(src).expect_err("should return errors")
}

#[test]
fn basic_two_participant_sequence() {
    let src = "@startuml\nparticipant Alice\nparticipant Bob\nAlice -> Bob : hello\n@enduml\n";
    let s = parse_ok(src);
    assert_eq!(s.participants.len(), 2);
    assert!(has_id(&s.participants, "Alice"));
    assert!(has_id(&s.participants, "Bob"));
    assert_eq!(s.items.len(), 1);
    let SequenceItem::Message(ref m) = s.items[0] else {
        panic!()
    };
    assert_eq!(m.from, "Alice");
    assert_eq!(m.to, "Bob");
    assert_eq!(m.label.as_deref(), Some("hello"));
    assert_eq!(m.line, LineStyle::Solid);
    assert_eq!(m.arrow, ArrowType::Triangle);
}

#[test]
fn as_alias_sets_id_and_label() {
    let src = "@startuml\nparticipant Alice as A\nparticipant Bob as B\nA -> B : hi\n@enduml\n";
    let s = parse_ok(src);
    assert_eq!(s.participants.len(), 2);
    // id is the alias
    assert!(has_id(&s.participants, "A"));
    assert_eq!(by_id(&s.participants, "A").label, "Alice");
    assert!(has_id(&s.participants, "B"));
    assert_eq!(by_id(&s.participants, "B").label, "Bob");
}

#[test]
fn quoted_display_name_with_alias() {
    let src =
        "@startuml\nparticipant \"Web Browser\" as WB\nparticipant Server\nWB -> Server : GET /\n@enduml\n";
    let s = parse_ok(src);
    assert!(has_id(&s.participants, "WB"));
    assert_eq!(by_id(&s.participants, "WB").label, "Web Browser");
    assert!(has_id(&s.participants, "Server"));
}

#[test]
fn auto_declare_participants_on_first_use() {
    // No explicit participant declarations — auto-declared via message.
    let src = "@startuml\nA -> B : test\n@enduml\n";
    let s = parse_ok(src);
    assert_eq!(s.participants.len(), 2);
    assert!(has_id(&s.participants, "A"));
    assert!(has_id(&s.participants, "B"));
    assert_eq!(by_id(&s.participants, "A").label, "A");
    assert_eq!(by_id(&s.participants, "B").label, "B");
}

#[test]
fn self_message() {
    let src = "@startuml\nparticipant A\nA -> A : think\n@enduml\n";
    let s = parse_ok(src);
    assert_eq!(s.items.len(), 1);
    let SequenceItem::Message(ref m) = s.items[0] else {
        panic!()
    };
    assert_eq!(m.from, "A");
    assert_eq!(m.to, "A");
    assert_eq!(m.label.as_deref(), Some("think"));
}

#[test]
fn solid_arrow_maps_to_solid_triangle() {
    let src = "@startuml\nA -> B : msg\n@enduml\n";
    let s = parse_ok(src);
    let SequenceItem::Message(ref m) = s.items[0] else {
        panic!()
    };
    assert_eq!(m.line, LineStyle::Solid);
    assert_eq!(m.arrow, ArrowType::Triangle);
}

#[test]
fn dashed_arrow_maps_to_dashed_triangle() {
    let src = "@startuml\nA --> B : msg\n@enduml\n";
    let s = parse_ok(src);
    let SequenceItem::Message(ref m) = s.items[0] else {
        panic!()
    };
    assert_eq!(m.line, LineStyle::Dashed);
    assert_eq!(m.arrow, ArrowType::Triangle);
}

#[test]
fn thin_solid_arrow_maps_to_solid_triangle() {
    // ->> maps to Solid + Triangle (thin arrowhead not rendered)
    let src = "@startuml\nA ->> B : msg\n@enduml\n";
    let s = parse_ok(src);
    let SequenceItem::Message(ref m) = s.items[0] else {
        panic!()
    };
    assert_eq!(m.line, LineStyle::Solid);
    assert_eq!(m.arrow, ArrowType::Triangle);
}

#[test]
fn thin_dashed_arrow_maps_to_dashed_triangle() {
    // -->> maps to Dashed + Triangle
    let src = "@startuml\nA -->> B : msg\n@enduml\n";
    let s = parse_ok(src);
    let SequenceItem::Message(ref m) = s.items[0] else {
        panic!()
    };
    assert_eq!(m.line, LineStyle::Dashed);
    assert_eq!(m.arrow, ArrowType::Triangle);
}

#[test]
fn actor_keyword_works_like_participant() {
    let src = "@startuml\nactor User\nparticipant System\nUser -> System : login\n@enduml\n";
    let s = parse_ok(src);
    assert!(has_id(&s.participants, "User"));
    assert_eq!(by_id(&s.participants, "User").label, "User");
}

#[test]
fn actor_with_alias() {
    let src = "@startuml\nactor \"End User\" as U\nU -> System : click\n@enduml\n";
    let s = parse_ok(src);
    assert!(has_id(&s.participants, "U"));
    assert_eq!(by_id(&s.participants, "U").label, "End User");
}

#[test]
fn icon_variant_keywords_map_to_participant() {
    let src = "@startuml\nboundary FE\ncontrol BE\nentity DB\nFE -> BE : req\nBE -> DB : query\n@enduml\n";
    let s = parse_ok(src);
    assert!(has_id(&s.participants, "FE"));
    assert!(has_id(&s.participants, "BE"));
    assert!(has_id(&s.participants, "DB"));
}

#[test]
fn message_without_label() {
    let src = "@startuml\nA -> B\n@enduml\n";
    let s = parse_ok(src);
    let SequenceItem::Message(ref m) = s.items[0] else {
        panic!()
    };
    assert_eq!(m.label, None);
}

#[test]
fn missing_startuml_is_error() {
    let src = "participant A\nA -> B : hi\n@enduml\n";
    let errs = parse_err(src);
    assert!(
        errs.iter().any(|e| e.message.contains("@startuml")),
        "got: {errs:?}"
    );
}

#[test]
fn missing_enduml_is_error() {
    let src = "@startuml\nA -> B : hi\n";
    let errs = parse_err(src);
    assert!(
        errs.iter().any(|e| e.message.contains("@enduml")),
        "got: {errs:?}"
    );
}

#[test]
fn startmindmap_is_unsupported() {
    let src = "@startmindmap\n* root\n@endmindmap\n";
    let errs = parse_err(src);
    assert!(
        errs.iter()
            .any(|e| e.message.contains("unsupported") && e.message.contains("mindmap")),
        "got: {errs:?}"
    );
}

#[test]
fn startgantt_is_unsupported() {
    let src = "@startgantt\nProject starts 2024-01-01\n@endgantt\n";
    let errs = parse_err(src);
    assert!(
        errs.iter()
            .any(|e| e.message.contains("unsupported") && e.message.contains("gantt")),
        "got: {errs:?}"
    );
}

#[test]
fn startjson_is_unsupported() {
    let src = "@startjson\n{}\n@endjson\n";
    let errs = parse_err(src);
    assert!(
        errs.iter()
            .any(|e| e.message.contains("unsupported") || e.message.contains("json")),
        "got: {errs:?}"
    );
}

#[test]
fn preprocessor_include_is_unsupported() {
    let src = "@startuml\n!include other.puml\nA -> B : hi\n@enduml\n";
    let errs = parse_err(src);
    assert!(
        errs.iter()
            .any(|e| e.message.contains("unsupported") && e.message.contains("preprocessor")),
        "got: {errs:?}"
    );
}

#[test]
fn preprocessor_define_is_unsupported() {
    let src = "@startuml\n!define FOO bar\nA -> B : FOO\n@enduml\n";
    let errs = parse_err(src);
    assert!(
        errs.iter()
            .any(|e| e.message.contains("unsupported") && e.message.contains("preprocessor")),
        "got: {errs:?}"
    );
}

#[test]
fn lib_note_is_unsupported() {
    let src = "@startuml\nparticipant A\nnote over A: some text\nA -> A : ok\n@enduml\n";
    let errs = parse_err(src);
    assert!(
        errs.iter()
            .any(|e| e.message.contains("unsupported")
                && e.message.to_lowercase().contains("note")),
        "got: {errs:?}"
    );
}

#[test]
fn alt_is_unsupported() {
    let src = "@startuml\nA -> B : req\nalt success\n  B --> A : ok\nend\n@enduml\n";
    let errs = parse_err(src);
    assert!(
        errs.iter()
            .any(|e| e.message.contains("unsupported") && e.message.contains("alt")),
        "got: {errs:?}"
    );
}

#[test]
fn lib_loop_is_unsupported() {
    let src = "@startuml\nloop every second\n  A -> A : tick\nend\n@enduml\n";
    let errs = parse_err(src);
    assert!(
        errs.iter()
            .any(|e| e.message.contains("unsupported") && e.message.contains("loop")),
        "got: {errs:?}"
    );
}

#[test]
fn end_silently_skipped() {
    // `end` alone on a line should be silently skipped (not cause an error).
    // Body: participant A, then an implicit alt-end that got orphaned.
    let src = "@startuml\nparticipant A\nend\nA -> A : ok\n@enduml\n";
    // Should parse successfully (no error for bare `end`).
    let s = parse_ok(src);
    assert_eq!(s.items.len(), 1);
}

#[test]
fn line_comment_is_stripped() {
    // `'` comment should be stripped; the message should parse.
    let src = "@startuml\n' this is a comment\nparticipant A\nparticipant B\nA -> B : msg ' inline comment\n@enduml\n";
    let s = parse_ok(src);
    assert_eq!(s.items.len(), 1);
    let SequenceItem::Message(ref m) = s.items[0] else {
        panic!()
    };
    // Label should contain "msg" (trailing space before comment is preserved, comment stripped).
    let label = m.label.as_deref().unwrap_or("");
    assert!(
        label.contains("msg"),
        "label should contain 'msg', got: {label:?}"
    );
    assert!(
        !label.contains("inline comment"),
        "label must not contain comment text"
    );
}

#[test]
fn block_comment_is_stripped() {
    let src = "@startuml\n/' this is a block comment '/\nA -> B : hello\n@enduml\n";
    let s = parse_ok(src);
    assert_eq!(s.items.len(), 1);
}

#[test]
fn multiline_block_comment_is_stripped() {
    let src =
        "@startuml\n/'\nline 1 of comment\nline 2 of comment\n'/\nA -> B : hello\n@enduml\n";
    let s = parse_ok(src);
    assert_eq!(s.items.len(), 1);
}

#[test]
fn three_participants_with_solid_and_dashed() {
    let src = "@startuml\nparticipant Alice as A\nparticipant Bob as B\nparticipant Carol as C\nA -> B : request\nB --> A : response\nA -> C : notify\n@enduml\n";
    let s = parse_ok(src);
    assert_eq!(s.participants.len(), 3);
    assert_eq!(s.items.len(), 3);
    let SequenceItem::Message(ref m0) = s.items[0] else {
        panic!()
    };
    assert_eq!(m0.line, LineStyle::Solid);
    let SequenceItem::Message(ref m1) = s.items[1] else {
        panic!()
    };
    assert_eq!(m1.line, LineStyle::Dashed);
}

#[test]
fn par_is_unsupported_not_confused_with_participant() {
    // `par` should be unsupported but `participant` should still work.
    let src = "@startuml\nparticipant Alice\npar\nAlice -> Alice : ok\nend\n@enduml\n";
    let errs = parse_err(src);
    assert!(
        errs.iter()
            .any(|e| e.message.contains("unsupported") && e.message.contains("par")),
        "`par` should be unsupported, got: {errs:?}"
    );
}

#[test]
fn startuml_with_name_is_accepted() {
    // @startuml SomeName — name is accepted and ignored.
    let src = "@startuml MyDiagram\nA -> B : hi\n@enduml\n";
    let s = parse_ok(src);
    assert_eq!(s.items.len(), 1);
}

#[test]
fn japanese_labels_in_messages() {
    let src = "@startuml\nparticipant クライアント as C\nparticipant サーバ as S\nC -> S : ログイン\nS --> C : 成功\n@enduml\n";
    let s = parse_ok(src);
    assert_eq!(s.participants.len(), 2);
    assert_eq!(by_id(&s.participants, "C").label, "クライアント");
    assert_eq!(s.items.len(), 2);
    let SequenceItem::Message(ref m0) = s.items[0] else {
        panic!()
    };
    assert_eq!(m0.label.as_deref(), Some("ログイン"));
}

#[test]
fn block_open_inside_line_comment_does_not_swallow_input() {
    // A `/'` sitting inside a `'` line comment must NOT open a block comment
    // and eat the following real message.
    let src = "@startuml\n' TODO: convert to /' block\nSECRET -> LEAK : must not vanish\n' done '/\nA -> B : visible\n@enduml\n";
    let s = parse_ok(src);
    // Both real messages must survive.
    assert_eq!(s.items.len(), 2, "no message may be silently dropped");
    let froms: Vec<&str> = s
        .items
        .iter()
        .filter_map(|it| match it {
            SequenceItem::Message(m) => Some(m.from.as_str()),
            _ => None,
        })
        .collect();
    assert!(froms.contains(&"SECRET"), "got: {froms:?}");
    assert!(froms.contains(&"A"), "got: {froms:?}");
}

#[test]
fn block_open_inside_quoted_name_does_not_swallow_input() {
    // `/'` inside a quoted display name is literal, not a block opener.
    let src = "@startuml\nparticipant \"a /' b\" as X\nX -> Y : survives\n@enduml\n";
    let s = parse_ok(src);
    assert_eq!(by_id(&s.participants, "X").label, "a /' b");
    assert_eq!(s.items.len(), 1, "message after quoted /' must survive");
}

#[test]
fn unterminated_block_comment_is_error() {
    // A `/'` that is never closed masks to EOF; this must be diagnosed, not
    // silently swallowed (including the swallowed message and @enduml).
    let src = "@startuml\nA -> B : hi\n/' oops never closed\nC -> D : lost\n@enduml\n";
    let errs = parse_err(src);
    assert!(
        errs.iter()
            .any(|e| e.message.contains("unterminated block comment")),
        "got: {errs:?}"
    );
}

#[test]
fn error_span_is_correct_after_block_comment() {
    let src = "@startuml\n/' a block comment here '/\nnote over A : unsupported\n@enduml\n";
    let errs = parse_err(src);
    let note_err = errs
        .iter()
        .find(|e| e.message.contains("note"))
        .expect("expected a note error");
    // The span must underline the actual `note` occurrence in the ORIGINAL source.
    assert_eq!(
        &src[note_err.span.clone()],
        "note over A : unsupported",
        "span must map to the note line, not shift due to the block comment"
    );
}

#[test]
fn dangling_as_is_error_not_phantom_participant() {
    let src = "@startuml\nparticipant Foo as\nFoo -> Bar : hi\n@enduml\n";
    let errs = parse_err(src);
    assert!(
        errs.iter().any(|e| e.message.contains("unrecognised")),
        "trailing `as` must be an error, got: {errs:?}"
    );
}

#[test]
fn duplicate_participant_id_is_error() {
    let src = "@startuml\nparticipant Alice as X\nparticipant Bob as X\nX -> X : hi\n@enduml\n";
    let errs = parse_err(src);
    assert!(
        errs.iter()
            .any(|e| e.message.contains("duplicate participant")),
        "duplicate id must be an error, got: {errs:?}"
    );
}

#[test]
fn multiple_errors_are_all_collected() {
    // Both note and alt should produce errors — all collected before returning.
    let src = "@startuml\nnote over A: text\nalt success\nA -> B : hi\nend\n@enduml\n";
    let errs = parse_err(src);
    assert!(errs.len() >= 2, "expected multiple errors, got: {errs:?}");
}

fn parse_state_ok(src: &str) -> StateDiagram {
    match parse(src).expect("should parse without errors") {
        Diagram::State(s) => s,
        other => panic!("expected State diagram, got {other:?}"),
    }
}

#[test]
fn state_basic_flow() {
    let src = "@startuml\n[*] --> Idle\nIdle --> Running : start\nRunning --> [*]\n@enduml\n";
    let s = parse_state_ok(src);
    assert!(has_id(&s.states, "Idle"));
    assert!(has_id(&s.states, "Running"));
    assert_eq!(s.transitions.len(), 3);
    assert_eq!(s.transitions[0].from, Endpoint::Initial);
    assert_eq!(s.transitions[0].to, Endpoint::State("Idle".into()));
    assert_eq!(s.transitions[1].label.as_deref(), Some("start"));
    assert_eq!(s.transitions[2].to, Endpoint::Final);
}

#[test]
fn state_solid_arrow_also_a_transition() {
    // In a state diagram (signalled by `[*]`), `->` is a transition too.
    let src = "@startuml\n[*] -> A\nA -> B\n@enduml\n";
    let s = parse_state_ok(src);
    assert_eq!(s.transitions.len(), 2);
    assert!(has_id(&s.states, "A") && has_id(&s.states, "B"));
}

#[test]
fn state_explicit_declaration_with_alias() {
    let src = "@startuml\nstate \"Long Name\" as s1\n[*] --> s1\n@enduml\n";
    let s = parse_state_ok(src);
    assert_eq!(by_id(&s.states, "s1").label, "Long Name");
}

#[test]
fn lib_state_bare_declaration() {
    let src = "@startuml\nstate Alone\n[*] --> Alone\n@enduml\n";
    let s = parse_state_ok(src);
    assert_eq!(by_id(&s.states, "Alone").label, "Alone");
}

#[test]
fn state_without_pseudostate_but_with_state_keyword() {
    // No `[*]`, but a `state` keyword still signals a state diagram.
    let src = "@startuml\nstate A\nA --> B\n@enduml\n";
    let s = parse_state_ok(src);
    assert_eq!(s.transitions.len(), 1);
}

#[test]
fn plain_dashed_message_stays_a_sequence() {
    // No state signal at all → the `A --> B` reads as a sequence message.
    let src = "@startuml\nA --> B : hi\n@enduml\n";
    match parse(src).expect("should parse") {
        Diagram::Sequence(_) => {}
        other => panic!("expected Sequence, got {other:?}"),
    }
}

#[test]
fn lib_state_initial_to_final_is_error() {
    let src = "@startuml\n[*] --> [*]\n@enduml\n";
    let errs = parse_err(src);
    assert!(
        errs.iter().any(|e| e.message.contains("[*] --> [*]")),
        "got: {errs:?}"
    );
}

#[test]
fn lib_state_composite_is_unsupported() {
    let src = "@startuml\nstate Outer {\n[*] --> Inner\n}\n@enduml\n";
    let errs = parse_err(src);
    assert!(
        errs.iter()
            .any(|e| e.message.contains("unsupported") && e.message.contains("composite")),
        "got: {errs:?}"
    );
}

#[test]
fn state_fork_is_unsupported() {
    let src = "@startuml\nstate fork_state <<fork>>\n[*] --> fork_state\n@enduml\n";
    let errs = parse_err(src);
    assert!(
        errs.iter().any(|e| e.message.contains("unsupported")),
        "got: {errs:?}"
    );
}

#[test]
fn lib_state_note_is_unsupported() {
    let src = "@startuml\n[*] --> A\nnote right of A : hi\n@enduml\n";
    let errs = parse_err(src);
    assert!(
        errs.iter()
            .any(|e| e.message.contains("unsupported") && e.message.contains("note")),
        "got: {errs:?}"
    );
}

#[test]
fn lib_state_description_assignment_is_unsupported() {
    let src = "@startuml\nstate A\nA : doing work\n@enduml\n";
    let errs = parse_err(src);
    assert!(!errs.is_empty(), "got: {errs:?}");
}

#[test]
fn lib_state_duplicate_declaration_is_error() {
    let src = "@startuml\nstate \"A\" as x\nstate \"B\" as x\n[*] --> x\n@enduml\n";
    let errs = parse_err(src);
    assert!(
        errs.iter().any(|e| e.message.contains("duplicate")),
        "got: {errs:?}"
    );
}

#[test]
fn state_transition_label_containing_arrow() {
    // A label containing `-->` must not be mistaken for the transition arrow.
    let src = "@startuml\n[*] -> A\nA -> B : x --> y\n@enduml\n";
    let s = parse_state_ok(src);
    assert_eq!(s.transitions.len(), 2);
    assert_eq!(s.transitions[1].from, Endpoint::State("A".into()));
    assert_eq!(s.transitions[1].to, Endpoint::State("B".into()));
    assert_eq!(s.transitions[1].label.as_deref(), Some("x --> y"));
}

#[test]
fn state_non_ascii_after_alias_does_not_panic() {
    // Non-ASCII trailing token after a quoted state must diagnose, not panic.
    let src = "@startuml\nstate \"名前\" あ\n[*] --> x\n@enduml\n";
    let errs = parse_err(src);
    assert!(!errs.is_empty());
}

#[test]
fn pseudostate_marker_inside_message_label_stays_sequence() {
    // `[*]` appears only inside a sequence message label — it must NOT be read
    // as a state-diagram signal.
    let src = "@startuml\nA -> B : send [*] token\n@enduml\n";
    match parse(src).expect("should parse") {
        Diagram::Sequence(s) => {
            assert_eq!(s.items.len(), 1);
        }
        other => panic!("expected Sequence, got {other:?}"),
    }
}

//! Every error of the Mermaid and PlantUML frontends, with its place.

use kozue::diag::Diagnostic;
use kozue::{mermaid, plantuml};

/// Checks the only error of a Mermaid source: its message, and the text it is about.
fn mermaid_error(source: &str, message: &str, about: &str) {
    check(mermaid::parse(source).expect_err(source), source, message, about);
}

/// Checks the only error of a PlantUML source: its message, and the text it is about.
fn plantuml_error(source: &str, message: &str, about: &str) {
    check(plantuml::parse(source).expect_err(source), source, message, about);
}

fn check(errors: Vec<Diagnostic>, source: &str, message: &str, about: &str) {
    assert_eq!(errors.len(), 1, "{source:?}: {errors:?}");
    assert_eq!(errors[0].message, message, "{source:?}");
    assert_eq!(&source[errors[0].span.clone()], about, "{source:?}");
}

const SEMICOLON: &str = "unsupported: semicolon statement separator; use newlines instead (kozue does not support this yet)";
const SHAPE: &str = "unsupported: this compound Mermaid node shape is not supported by kozue";
const MULTI_TARGET: &str =
    "unsupported: multi-target edge (`&`); split into separate edge lines instead";
const COMPOSITE: &str =
    "unsupported: composite/nested state (`state s { … }`); kozue does not support this yet";
const PSEUDOSTATE: &str =
    "unsupported: fork/join/choice/history pseudostate (`<<…>>`); kozue does not support this yet";
const GENERICS: &str =
    "unsupported: generic type parameters (`~T~`); kozue does not support this yet";

#[test]
fn an_empty_source_is_an_error_even_without_text() {
    let errors = mermaid::parse("").expect_err("empty");
    assert_eq!(
        errors[0].message,
        "empty diagram: expected `flowchart`, `sequenceDiagram`, or `stateDiagram-v2` header"
    );
    assert_eq!(errors[0].span, 0..1);
    let errors = mermaid::parse("\u{feff}").expect_err("empty");
    assert_eq!(errors[0].span, 0..1);
    let errors = plantuml::parse("\u{feff}").expect_err("empty");
    assert_eq!(errors[0].message, "empty diagram: expected `@startuml` header");
    assert_eq!(errors[0].span, 3..4);
    mermaid_error(
        "%% only a comment\n",
        "empty diagram: expected `flowchart`, `sequenceDiagram`, or `stateDiagram-v2` header",
        "%% only a comment\n",
    );
}

#[test]
fn mermaid_headers() {
    mermaid_error(
        "pie\n",
        "unrecognised diagram header `pie`; expected `flowchart`, `graph`, `sequenceDiagram`, `stateDiagram-v2`, `classDiagram`, or `erDiagram`",
        "pie",
    );
    mermaid_error(
        "flowchart UP\n  A\n",
        "unknown flowchart direction `UP`; expected TD, TB, LR, RL, or BT",
        "flowchart UP",
    );
    for (header, name) in [
        ("sequenceDiagram x", "sequenceDiagram"),
        ("stateDiagram-v2 x", "stateDiagram"),
        ("classDiagram x", "classDiagram"),
        ("erDiagram x", "erDiagram"),
    ] {
        let message =
            format!("unexpected tokens after `{name}`; the header must be on its own line");
        mermaid_error(header, &message, header);
    }
}

#[test]
fn flowchart_errors() {
    let body = |line: &str| format!("flowchart TD\n{line}");
    for (line, message, about) in [
        ("end", "unmatched `end` (no open subgraph to close)", "end"),
        ("subgraph s\nend", "subgraph `s` has no members", "subgraph s"),
        ("subgraph s\nA", "subgraph `s` is missing a closing `end`", "subgraph s"),
        (
            "subgraph s\nA\ndirection lr\nend",
            "unsupported: direction (inside subgraph) (kozue does not support this yet)",
            "direction lr",
        ),
        (
            "classDef big font-size:20px",
            "unsupported: classDef (kozue does not support this yet)",
            "classDef big font-size:20px",
        ),
        ("class A big", "unsupported: class (kozue does not support this yet)", "class A big"),
        ("click A b", "unsupported: click (kozue does not support this yet)", "click A b"),
        ("A; B", SEMICOLON, "A; B"),
        ("  A([x])", SHAPE, "(["),
        ("  あ --> B", "syntax error: unrecognised statement `あ --> B`", "  あ --> B"),
        ("A --> B{{x}}", SHAPE, "{{"),
        ("A & B --> C", "syntax error: unrecognised statement `A & B --> C`", "A & B --> C"),
        ("A --> B & C", MULTI_TARGET, "A --> B & C"),
        ("A --> & C", MULTI_TARGET, "A --> & C"),
        (
            "A -->|x| (y)",
            "syntax error: expected node identifier after `-->|x|`, got `(y)`",
            "A -->|x| (y)",
        ),
        (
            "A --> B C",
            "syntax error: unexpected tokens after edge: `C`",
            "A --> B C",
        ),
        ("A -->", "syntax error: unexpected tokens in edge: `-->`", "A -->"),
        (
            "A --> A",
            "self-loops are not supported in flowchart diagrams (edge `A` --> `A`)",
            "A --> A",
        ),
        ("A => B", "syntax error: unrecognised statement `A => B`", "A => B"),
    ] {
        mermaid_error(&body(line), message, about);
    }
    mermaid_error(
        "flowchart TD\nsubgraph s\nA\nend\nsubgraph s\nB\nend",
        "duplicate subgraph id `s`",
        "subgraph s",
    );
    mermaid_error(
        "flowchart TD\ns\nsubgraph s\nB\nend",
        "subgraph id `s` collides with a node of the same name",
        "subgraph s",
    );
}

#[test]
fn a_subgraph_that_repeats_an_id_is_the_one_that_is_wrong() {
    let errors = mermaid::parse("graph LR\nsubgraph s\nA\nend\nsubgraph s\nB\nend").expect_err("s");
    assert_eq!(errors[0].span, 26..36);
}

#[test]
fn mermaid_sequence_errors() {
    let body = |line: &str| format!("sequenceDiagram\n{line}");
    for (line, message) in [
        ("A->>B: x; y", SEMICOLON),
        ("Note over A: x", "unsupported: Note (kozue does not support this yet)"),
        ("loop", "unsupported: loop (kozue does not support this yet)"),
        ("accDescr\tx", "unsupported: accDescr (kozue does not support this yet)"),
        ("A =>> B", "syntax error: unrecognised statement `A =>> B`"),
    ] {
        mermaid_error(&body(line), message, line);
    }
}

#[test]
fn mermaid_state_errors() {
    let body = |line: &str| format!("stateDiagram-v2\n{line}");
    for (line, message) in [
        ("A --> B; C", SEMICOLON),
        ("state A {", COMPOSITE),
        ("}", COMPOSITE),
        ("state f <<fork>>", PSEUDOSTATE),
        (
            "--",
            "unsupported: concurrent region separator (`--`); kozue does not support this yet",
        ),
        (
            "[*] --> [*]",
            "`[*] --> [*]` is not valid; initial pseudostate cannot transition directly to final pseudostate",
        ),
        ("A b --> C", "syntax error: expected a state identifier or `[*]`, got `A b`"),
        ("A -->", "syntax error: expected a state identifier or `[*]`, got ``"),
        (
            "direction LR",
            "unsupported: direction in state diagrams; kozue lays state diagrams top-down (kozue does not support this yet)",
        ),
        ("note left of A", "unsupported: note (kozue does not support this yet)"),
        ("state", "expected a state identifier after `state`"),
        ("state \"x", "unterminated quoted state description"),
        ("state \"x\" is y", "expected `as <id>` after quoted state description"),
        ("state \"x\" as a-b", "invalid state identifier `a-b`"),
        (
            "state s : x",
            "unsupported: state description (`state s : …`); kozue does not support this yet",
        ),
        ("state a b", "invalid state declaration `a b`"),
        ("A : x", "syntax error: unrecognised statement `A : x`"),
    ] {
        mermaid_error(&body(line), message, line);
    }
    mermaid_error(
        "stateDiagram\nstate a\nstate \"A\" as a",
        "duplicate state declaration `a`",
        "state \"A\" as a",
    );
}

#[test]
fn class_errors() {
    let body = |line: &str| format!("classDiagram\n{line}");
    for (line, message) in [
        ("direction up", "unknown classDiagram direction `UP`; expected TD, TB, or LR"),
        ("namespace N", "unsupported: namespace (kozue does not support this yet)"),
        ("<<interface>>", "expected a class name after `<<stereotype>>`"),
        (
            "<<interface>> A B",
            "syntax error: unexpected tokens after class name `A B`",
        ),
        ("<<interface>> *", "syntax error: expected a class identifier, got `*`"),
        ("<<interface A", "unterminated `<<stereotype>>` annotation (missing `>>`)"),
        ("class A { x } y", "syntax error: malformed class body `class A { x } y`"),
        ("class A~T~", GENERICS),
        ("class A { List~T~ x }", GENERICS),
        ("class A { <<x }", "unterminated `<<stereotype>>` annotation (missing `>>`)"),
        ("class *", "syntax error: expected a class identifier, got `*`"),
        ("class A B", "syntax error: unexpected tokens after class name `A B`"),
        ("class A {", "unterminated `class A { ... }` block (missing `}`)"),
        (
            "A \"1\" \"2\" --> B",
            "multiple multiplicities on one side of a relation",
        ),
        ("A C --> B", "multiple identifiers on one side of a relation"),
        ("\"1\" --> B", "missing identifier in relation"),
        ("A --> A", "self relations are not supported in class diagrams (`A` -> `A`)"),
        ("what is this", "syntax error: unrecognised statement `what is this`"),
    ] {
        mermaid_error(&body(line), message, line);
    }
    mermaid_error(
        "classDiagram\nnamespace N {\nclass ?\n}\nclass A",
        "unsupported: namespace (kozue does not support this yet)",
        "namespace N {",
    );
    mermaid_error("classDiagram\nclass A {\nx\ny~T~\n}", GENERICS, "y~T~");
}

#[test]
fn er_errors() {
    let body = |line: &str| format!("erDiagram\n{line}");
    for (line, message) in [
        ("A { x y } z", "syntax error: malformed entity body `A { x y } z`"),
        ("A {", "unterminated `A { ... }` entity block (missing `}`)"),
        ("A { x }", "syntax error: expected `type name` in entity attribute, got `x`"),
        ("A { int x \"a\" \"b\" }", "multiple comments on one attribute line"),
        ("A { int x XK }", "syntax error: unrecognised token `XK` in entity attribute"),
        ("A ||--|| A : x", "self relations are not supported in ER diagrams (`A` -> `A`)"),
        ("A ||-|| B", "syntax error: unrecognised statement `A ||-|| B`"),
    ] {
        mermaid_error(&body(line), message, line);
    }
    mermaid_error(
        "erDiagram\nA {\nint x\ny\n}",
        "syntax error: expected `type name` in entity attribute, got `y`",
        "y",
    );
}

#[test]
fn plantuml_frames() {
    plantuml_error(
        "@startuml\n@enduml\n/' x\n",
        "unterminated block comment: `/'` was never closed with `'/`",
        "/' x\n",
    );
    plantuml_error(
        "@startgantt\n@endgantt",
        "unsupported: @startgantt diagram type; kozue-plantuml only supports @startuml (sequence diagrams)",
        "@startgantt",
    );
    plantuml_error(
        "A -> B",
        "missing `@startuml`: first non-comment line must be `@startuml`, got `A -> B`",
        "A -> B",
    );
    plantuml_error(
        "@startuml\nA -> B",
        "missing `@enduml`: last non-comment line must be `@enduml`",
        "A -> B",
    );
}

#[test]
fn plantuml_sequence_errors() {
    for (line, message) in [
        (
            "!define x",
            "unsupported: PlantUML preprocessor directives (`!...`) are not supported; kozue targets a preprocessor-free subset",
        ),
        ("== x ==", "unsupported: == dividers are not supported"),
        ("...", "unsupported: delay markers (`...` / `||`) are not supported"),
        ("||45||", "unsupported: delay markers (`...` / `||`) are not supported"),
        (
            "A -[#red]> B",
            "unsupported: colored arrows (`-[#color]>`) are not supported",
        ),
        (
            "A ->x B",
            "unsupported: lost/found messages (`->x` / `->o`) are not supported",
        ),
        ("hnote over A", "unsupported: hnote (kozue does not support this yet)"),
        ("skinparam x", "unsupported: skinparam (kozue does not support this yet)"),
        ("participant a b", "syntax error: unrecognised statement `participant a b`"),
        ("A = B", "syntax error: unrecognised statement `A = B`"),
    ] {
        plantuml_error(&format!("@startuml\n{line}\n@enduml"), message, line);
    }
    plantuml_error(
        "@startuml\nactor A\nqueue A \n@enduml",
        "duplicate participant id `A`",
        "queue A ",
    );
}

#[test]
fn plantuml_state_errors() {
    for (line, message) in [
        (
            "!define x",
            "unsupported: PlantUML preprocessor directives (`!...`) are not supported; kozue targets a preprocessor-free subset",
        ),
        ("state A {", COMPOSITE),
        ("state f <<fork>>", PSEUDOSTATE),
        (
            "Left to right direction",
            "unsupported: direction in state diagrams; kozue lays state diagrams top-down (kozue does not support this yet)",
        ),
        (
            "||",
            "unsupported: concurrent region separator (`--` / `||`); kozue does not support this yet",
        ),
        ("state", "expected a state identifier after `state`"),
        ("state \"x", "unterminated quoted state description"),
        ("state \"x\" is y", "expected `as <id>` after quoted state description"),
        ("state \"x\" as a b", "invalid state identifier `a b`"),
        (
            "state s : x",
            "unsupported: state description (`state s : …`); kozue does not support this yet",
        ),
        ("state a b", "invalid state declaration `a b`"),
        ("state S", "duplicate state declaration `S`"),
        (
            "[*] --> [*]",
            "`[*] --> [*]` is not valid; initial pseudostate cannot transition directly to final pseudostate",
        ),
        ("A b -> C", "syntax error: expected a state identifier or `[*]`, got `A b`"),
        ("legend right", "unsupported: legend (kozue does not support this yet)"),
        ("S : x", "syntax error: unrecognised statement `S : x`"),
    ] {
        let source = format!("@startuml\nstate S\n{line}\n@enduml");
        plantuml_error(&source, message, line);
    }
}

//! The published PlantUML compatibility table.
//!
//! The rows are kept as published. In some points they do not describe this parser,
//! which refuses dividers, delays, single-line notes and references, messages that
//! are lost, found or go both ways, and class and ER diagrams, draws the thin arrows
//! with a filled head, and gives every participant the default kind.
use crate::text::{lemma_views_push, views};
use vstd::prelude::*;

verus! {

/// How far a PlantUML feature is supported.
#[derive(Debug, Clone, Copy, PartialEq, Eq, Structural)]
pub enum Support {
    /// Fully supported; output matches expected semantics.
    Supported,
    /// Partially supported; some aspects may differ from PlantUML.
    Partial,
    /// Not supported; produces an "unsupported" error.
    Unsupported,
}

impl Support {
    /// The level as a word.
    pub fn as_str(self) -> (r: &'static str)
        ensures
            r@ == match self {
                Support::Supported => "supported"@,
                Support::Partial => "partial"@,
                Support::Unsupported => "unsupported"@,
            },
    {
        match self {
            Support::Supported => "supported",
            Support::Partial => "partial",
            Support::Unsupported => "unsupported",
        }
    }

    /// The level as a sign.
    pub fn symbol(self) -> (r: &'static str)
        ensures
            r@ == match self {
                Support::Supported => "✓"@,
                Support::Partial => "~"@,
                Support::Unsupported => "✗"@,
            },
    {
        match self {
            Support::Supported => "✓",
            Support::Partial => "~",
            Support::Unsupported => "✗",
        }
    }
}

/// A single PlantUML feature in the compatibility table.
#[derive(Debug, Clone, Copy)]
pub struct Feature {
    /// Short human-readable feature name.
    pub name: &'static str,
    /// Support level.
    pub support: Support,
    /// A note explaining the support level or any caveats.
    pub note: &'static str,
}

/// The model of [`Feature`].
#[verifier::ext_equal]
pub struct FeatureView {
    pub name: Seq<char>,
    pub support: Support,
    pub note: Seq<char>,
}

impl View for Feature {
    type V = FeatureView;

    open spec fn view(&self) -> FeatureView {
        row(self.name@, self.support, self.note@)
    }
}

/// A row of the table.
pub open spec fn row(name: Seq<char>, support: Support, note: Seq<char>) -> FeatureView {
    FeatureView { name, support, note }
}

/// Adds a row.
fn push_row(out: &mut Vec<Feature>, name: &'static str, support: Support, note: &'static str)
    ensures
        views(final(out)@) == views(old(out)@).push(row(name@, support, note@)),
{
    broadcast use lemma_views_push;

    out.push(Feature { name, support, note });
}

/// The full PlantUML compatibility table, as published. Where a row and the parser
/// differ (see the module), the parser's contract says what is read.
pub open spec fn table() -> Seq<FeatureView> {
    seq![
        row(
            "@startuml / @enduml"@,
            Support::Supported,
            "required delimiters; optional diagram name after @startuml is accepted and ignored"@,
        ),
        row(
            "sequence diagram"@,
            Support::Supported,
            "M4 target: PlantUML sequence diagrams parsed into SequenceDiagram IR"@,
        ),
        row(
            "state diagram"@,
            Support::Supported,
            "detected when the @startuml body uses `[*]` or a `state` declaration; parsed into StateDiagram IR"@,
        ),
        row(
            "class diagram"@,
            Support::Supported,
            "detected when the body uses `class`/`interface`/`abstract`/`enum` or a UML relation symbol (`<|`, `|>`, `*--`, `o--`); parsed into ClassDiagram IR"@,
        ),
        row(
            "entity-relationship (ER) diagram"@,
            Support::Supported,
            "detected when the body has an `entity NAME {` block or a crow's-foot relation token; parsed into ErDiagram IR"@,
        ),
        row(
            "diagram-kind inference"@,
            Support::Partial,
            "a body with none of the state/class/ER markers (only `A --> B` lines) is read as a sequence diagram, since that is ambiguous with a dashed message"@,
        ),
        row(
            "ambiguous body (markers for 2+ kinds)"@,
            Support::Unsupported,
            "reports an explicit \"ambiguous @startuml body\" error rather than silently guessing"@,
        ),
        row(
            "@startmindmap / @startgantt / @startjson / etc."@,
            Support::Unsupported,
            "non-sequence @start<type> delimiters produce a clear unsupported error"@,
        ),
        row(
            "participant Name"@,
            Support::Supported,
            "id and label both set to Name"@,
        ),
        row(
            "participant Name as Alias"@,
            Support::Supported,
            "id set to Alias, label set to Name"@,
        ),
        row(
            "participant \"Quoted Display\" as Alias"@,
            Support::Supported,
            "quoted display name used as label, Alias used as id"@,
        ),
        row(
            "actor Name / actor \"...\" as X"@,
            Support::Supported,
            "ParticipantKind::Actor preserved in IR; stereotype rendered as «actor»"@,
        ),
        row(
            "boundary / control / entity / database / collections / queue"@,
            Support::Supported,
            "icon-variant keywords map to the corresponding ParticipantKind; stereotype rendered as «kind»"@,
        ),
        row(
            "auto-declare undeclared participants"@,
            Support::Supported,
            "participants used in messages but not declared are auto-declared on first use"@,
        ),
        row(
            "duplicate participant id"@,
            Support::Unsupported,
            "declaring the same id twice reports an error (matches the kozue DSL frontend); no silent overwrite"@,
        ),
        row(
            "solid arrow ->"@,
            Support::Supported,
            "LineStyle::Solid + MessageArrow::Filled head"@,
        ),
        row(
            "dashed arrow -->"@,
            Support::Supported,
            "LineStyle::Dashed + MessageArrow::Filled head"@,
        ),
        row(
            "thin/async arrow ->> / -->>"@,
            Support::Supported,
            "open V arrowhead (MessageArrow::Open head)"@,
        ),
        row(
            "bidirectional arrow <-> / <-->"@,
            Support::Supported,
            "filled head + filled tail"@,
        ),
        row(
            "self-message A -> A : text"@,
            Support::Supported,
            "from and to participant are the same"@,
        ),
        row(
            "message label A -> B : label"@,
            Support::Supported,
            "label text after colon is preserved"@,
        ),
        row(
            "message without label A -> B"@,
            Support::Supported,
            "label is None"@,
        ),
        row(
            "lost/found messages ->x / ->o"@,
            Support::Supported,
            "cross (lost) / circle (found) head markers; circle drawn as a small filled polygon until an ellipse primitive exists"@,
        ),
        row(
            "colored arrows -[#red]>"@,
            Support::Unsupported,
            "reports an unsupported error"@,
        ),
        row(
            "state [*] --> S / S --> [*]"@,
            Support::Supported,
            "[*] as source maps to the initial pseudostate, as target to the final pseudostate"@,
        ),
        row(
            "state transition S --> T : label / S -> T"@,
            Support::Supported,
            "both `-->` and `->` are transitions in a state diagram; text after the colon is the label"@,
        ),
        row(
            "state S / state \"desc\" as S"@,
            Support::Supported,
            "bare and quoted-alias declarations; auto-declaration for states used only in transitions"@,
        ),
        row(
            "[*] --> [*]"@,
            Support::Unsupported,
            "reports an error; initial cannot transition directly to final"@,
        ),
        row(
            "composite state s { … }"@,
            Support::Unsupported,
            "reports an unsupported error; no nested regions or concurrency (`--`)"@,
        ),
        row(
            "fork / join / choice / history <<…>>"@,
            Support::Unsupported,
            "stereotype pseudostates report an unsupported error"@,
        ),
        row(
            "state description (S : text)"@,
            Support::Unsupported,
            "reports an unsupported error; internal state text not rendered"@,
        ),
        row(
            "' line comments"@,
            Support::Supported,
            "single-quote starts a comment to end-of-line; comment masking is quote-aware, so ' / /' / '/ inside a \"...\" string are literal"@,
        ),
        row(
            "/' ... '/ block comments"@,
            Support::Supported,
            "multi-line block comments are masked before parsing; a /' inside a string or line comment does not open a block"@,
        ),
        row(
            "note over / left of / right of (single line)"@,
            Support::Supported,
            "single-line `note over/left of/right of ... : text`; multi-line note blocks, hnote, and rnote report an unsupported error"@,
        ),
        row(
            "hnote / rnote / multi-line note block"@,
            Support::Unsupported,
            "reports an unsupported error"@,
        ),
        row(
            "alt / else / opt"@,
            Support::Unsupported,
            "reports an unsupported error"@,
        ),
        row(
            "loop"@,
            Support::Unsupported,
            "reports an unsupported error"@,
        ),
        row(
            "par / break / critical / group"@,
            Support::Unsupported,
            "reports an unsupported error"@,
        ),
        row(
            "end (block closer)"@,
            Support::Partial,
            "silently skipped (closes unsupported alt/loop/opt blocks); same as kozue-mermaid behaviour"@,
        ),
        row(
            "activate / deactivate / destroy / create / return"@,
            Support::Unsupported,
            "reports an unsupported error"@,
        ),
        row(
            "autonumber"@,
            Support::Unsupported,
            "reports an unsupported error"@,
        ),
        row(
            "title / header / footer"@,
            Support::Unsupported,
            "reports an unsupported error"@,
        ),
        row(
            "newpage / box / ref"@,
            Support::Unsupported,
            "reports an unsupported error"@,
        ),
        row(
            "hide / show / skinparam"@,
            Support::Unsupported,
            "reports an unsupported error"@,
        ),
        row(
            "== dividers"@,
            Support::Supported,
            "`== text ==` parsed into SequenceItem::Divider"@,
        ),
        row(
            "... / ...text... delays"@,
            Support::Supported,
            "`...` / `...text...` / `...text` parsed into SequenceItem::Delay; `||` spacers stay unsupported"@,
        ),
        row(
            "ref over a[, b...] : text (single line)"@,
            Support::Supported,
            "single-line reference frame parsed into SequenceItem::Reference; multi-line `ref over a` blocks report an unsupported error"@,
        ),
        row(
            "! preprocessor directives"@,
            Support::Unsupported,
            "any line starting with ! reports unsupported; kozue targets a preprocessor-free subset"@,
        ),
        row(
            "class Foo / class Foo { ... }"@,
            Support::Supported,
            "multi-line or single-line `{ +a; +b }` (members split by newline or `;`); visibility markers (+ - # ~)"@,
        ),
        row(
            "interface / abstract [class] / enum"@,
            Support::Supported,
            "maps to stereotype \"interface\" / \"abstract\" / \"enumeration\""@,
        ),
        row(
            "class relations, both spelling directions"@,
            Support::Supported,
            "<|-- --|> <|.. ..|> *-- --* o-- --o --> <-- ..> <.. -- .. all supported"@,
        ),
        row(
            "class relation multiplicity A \"1\" -- \"*\" B"@,
            Support::Supported,
            "quoted multiplicity next to each class; also with markers/labels"@,
        ),
        row(
            "generic type parameters ~T~"@,
            Support::Unsupported,
            "reports an unsupported error"@,
        ),
        row(
            "namespace / note / hnote / rnote / package (class)"@,
            Support::Unsupported,
            "reports an unsupported error"@,
        ),
        row(
            "entity Foo { [*] name : type }"@,
            Support::Supported,
            "multi-line or single-line `{ a; b }`; leading `*` marks a primary key; a bare `--` PK-separator line is skipped"@,
        ),
        row(
            "crow's-foot relation A ||--o{ B : label"@,
            Support::Supported,
            "same glyph table as kozue-mermaid's erDiagram"@,
        ),
        row(
            "plain (non-crow's-foot) relation A -- B"@,
            Support::Supported,
            "no end markers; `--` = solid, `..` = dashed — PlantUML's ER subset is smaller than Mermaid's"@,
        ),
        row(
            "entity Foo (no `{ ... }` block)"@,
            Support::Unsupported,
            "an `entity` participant declaration without a block stays a sequence participant, not an ER entity"@,
        ),
    ]
}

/// The full PlantUML compatibility table, as published. Where a row and the parser
/// differ (see the module), the parser's contract says what is read.
#[verifier::rlimit(40)]
pub fn features() -> (r: Vec<Feature>)
    ensures
        views(r@) == table(),
{
    let mut out: Vec<Feature> = Vec::new();
    assert(views(out@) =~= Seq::<FeatureView>::empty());
    push_row(
        &mut out,
        "@startuml / @enduml",
        Support::Supported,
        "required delimiters; optional diagram name after @startuml is accepted and ignored",
    );
    push_row(
        &mut out,
        "sequence diagram",
        Support::Supported,
        "M4 target: PlantUML sequence diagrams parsed into SequenceDiagram IR",
    );
    push_row(
        &mut out,
        "state diagram",
        Support::Supported,
        "detected when the @startuml body uses `[*]` or a `state` declaration; parsed into StateDiagram IR",
    );
    push_row(
        &mut out,
        "class diagram",
        Support::Supported,
        "detected when the body uses `class`/`interface`/`abstract`/`enum` or a UML relation symbol (`<|`, `|>`, `*--`, `o--`); parsed into ClassDiagram IR",
    );
    push_row(
        &mut out,
        "entity-relationship (ER) diagram",
        Support::Supported,
        "detected when the body has an `entity NAME {` block or a crow's-foot relation token; parsed into ErDiagram IR",
    );
    push_row(
        &mut out,
        "diagram-kind inference",
        Support::Partial,
        "a body with none of the state/class/ER markers (only `A --> B` lines) is read as a sequence diagram, since that is ambiguous with a dashed message",
    );
    push_row(
        &mut out,
        "ambiguous body (markers for 2+ kinds)",
        Support::Unsupported,
        "reports an explicit \"ambiguous @startuml body\" error rather than silently guessing",
    );
    push_row(
        &mut out,
        "@startmindmap / @startgantt / @startjson / etc.",
        Support::Unsupported,
        "non-sequence @start<type> delimiters produce a clear unsupported error",
    );
    push_row(
        &mut out,
        "participant Name",
        Support::Supported,
        "id and label both set to Name",
    );
    push_row(
        &mut out,
        "participant Name as Alias",
        Support::Supported,
        "id set to Alias, label set to Name",
    );
    push_row(
        &mut out,
        "participant \"Quoted Display\" as Alias",
        Support::Supported,
        "quoted display name used as label, Alias used as id",
    );
    push_row(
        &mut out,
        "actor Name / actor \"...\" as X",
        Support::Supported,
        "ParticipantKind::Actor preserved in IR; stereotype rendered as «actor»",
    );
    push_row(
        &mut out,
        "boundary / control / entity / database / collections / queue",
        Support::Supported,
        "icon-variant keywords map to the corresponding ParticipantKind; stereotype rendered as «kind»",
    );
    push_row(
        &mut out,
        "auto-declare undeclared participants",
        Support::Supported,
        "participants used in messages but not declared are auto-declared on first use",
    );
    push_row(
        &mut out,
        "duplicate participant id",
        Support::Unsupported,
        "declaring the same id twice reports an error (matches the kozue DSL frontend); no silent overwrite",
    );
    push_row(
        &mut out,
        "solid arrow ->",
        Support::Supported,
        "LineStyle::Solid + MessageArrow::Filled head",
    );
    push_row(
        &mut out,
        "dashed arrow -->",
        Support::Supported,
        "LineStyle::Dashed + MessageArrow::Filled head",
    );
    push_row(
        &mut out,
        "thin/async arrow ->> / -->>",
        Support::Supported,
        "open V arrowhead (MessageArrow::Open head)",
    );
    push_row(
        &mut out,
        "bidirectional arrow <-> / <-->",
        Support::Supported,
        "filled head + filled tail",
    );
    push_row(
        &mut out,
        "self-message A -> A : text",
        Support::Supported,
        "from and to participant are the same",
    );
    push_row(
        &mut out,
        "message label A -> B : label",
        Support::Supported,
        "label text after colon is preserved",
    );
    push_row(
        &mut out,
        "message without label A -> B",
        Support::Supported,
        "label is None",
    );
    push_row(
        &mut out,
        "lost/found messages ->x / ->o",
        Support::Supported,
        "cross (lost) / circle (found) head markers; circle drawn as a small filled polygon until an ellipse primitive exists",
    );
    push_row(
        &mut out,
        "colored arrows -[#red]>",
        Support::Unsupported,
        "reports an unsupported error",
    );
    push_row(
        &mut out,
        "state [*] --> S / S --> [*]",
        Support::Supported,
        "[*] as source maps to the initial pseudostate, as target to the final pseudostate",
    );
    push_row(
        &mut out,
        "state transition S --> T : label / S -> T",
        Support::Supported,
        "both `-->` and `->` are transitions in a state diagram; text after the colon is the label",
    );
    push_row(
        &mut out,
        "state S / state \"desc\" as S",
        Support::Supported,
        "bare and quoted-alias declarations; auto-declaration for states used only in transitions",
    );
    push_row(
        &mut out,
        "[*] --> [*]",
        Support::Unsupported,
        "reports an error; initial cannot transition directly to final",
    );
    push_row(
        &mut out,
        "composite state s { … }",
        Support::Unsupported,
        "reports an unsupported error; no nested regions or concurrency (`--`)",
    );
    push_row(
        &mut out,
        "fork / join / choice / history <<…>>",
        Support::Unsupported,
        "stereotype pseudostates report an unsupported error",
    );
    push_row(
        &mut out,
        "state description (S : text)",
        Support::Unsupported,
        "reports an unsupported error; internal state text not rendered",
    );
    push_row(
        &mut out,
        "' line comments",
        Support::Supported,
        "single-quote starts a comment to end-of-line; comment masking is quote-aware, so ' / /' / '/ inside a \"...\" string are literal",
    );
    push_row(
        &mut out,
        "/' ... '/ block comments",
        Support::Supported,
        "multi-line block comments are masked before parsing; a /' inside a string or line comment does not open a block",
    );
    push_row(
        &mut out,
        "note over / left of / right of (single line)",
        Support::Supported,
        "single-line `note over/left of/right of ... : text`; multi-line note blocks, hnote, and rnote report an unsupported error",
    );
    push_row(
        &mut out,
        "hnote / rnote / multi-line note block",
        Support::Unsupported,
        "reports an unsupported error",
    );
    push_row(
        &mut out,
        "alt / else / opt",
        Support::Unsupported,
        "reports an unsupported error",
    );
    push_row(
        &mut out,
        "loop",
        Support::Unsupported,
        "reports an unsupported error",
    );
    push_row(
        &mut out,
        "par / break / critical / group",
        Support::Unsupported,
        "reports an unsupported error",
    );
    push_row(
        &mut out,
        "end (block closer)",
        Support::Partial,
        "silently skipped (closes unsupported alt/loop/opt blocks); same as kozue-mermaid behaviour",
    );
    push_row(
        &mut out,
        "activate / deactivate / destroy / create / return",
        Support::Unsupported,
        "reports an unsupported error",
    );
    push_row(
        &mut out,
        "autonumber",
        Support::Unsupported,
        "reports an unsupported error",
    );
    push_row(
        &mut out,
        "title / header / footer",
        Support::Unsupported,
        "reports an unsupported error",
    );
    push_row(
        &mut out,
        "newpage / box / ref",
        Support::Unsupported,
        "reports an unsupported error",
    );
    push_row(
        &mut out,
        "hide / show / skinparam",
        Support::Unsupported,
        "reports an unsupported error",
    );
    push_row(
        &mut out,
        "== dividers",
        Support::Supported,
        "`== text ==` parsed into SequenceItem::Divider",
    );
    push_row(
        &mut out,
        "... / ...text... delays",
        Support::Supported,
        "`...` / `...text...` / `...text` parsed into SequenceItem::Delay; `||` spacers stay unsupported",
    );
    push_row(
        &mut out,
        "ref over a[, b...] : text (single line)",
        Support::Supported,
        "single-line reference frame parsed into SequenceItem::Reference; multi-line `ref over a` blocks report an unsupported error",
    );
    push_row(
        &mut out,
        "! preprocessor directives",
        Support::Unsupported,
        "any line starting with ! reports unsupported; kozue targets a preprocessor-free subset",
    );
    push_row(
        &mut out,
        "class Foo / class Foo { ... }",
        Support::Supported,
        "multi-line or single-line `{ +a; +b }` (members split by newline or `;`); visibility markers (+ - # ~)",
    );
    push_row(
        &mut out,
        "interface / abstract [class] / enum",
        Support::Supported,
        "maps to stereotype \"interface\" / \"abstract\" / \"enumeration\"",
    );
    push_row(
        &mut out,
        "class relations, both spelling directions",
        Support::Supported,
        "<|-- --|> <|.. ..|> *-- --* o-- --o --> <-- ..> <.. -- .. all supported",
    );
    push_row(
        &mut out,
        "class relation multiplicity A \"1\" -- \"*\" B",
        Support::Supported,
        "quoted multiplicity next to each class; also with markers/labels",
    );
    push_row(
        &mut out,
        "generic type parameters ~T~",
        Support::Unsupported,
        "reports an unsupported error",
    );
    push_row(
        &mut out,
        "namespace / note / hnote / rnote / package (class)",
        Support::Unsupported,
        "reports an unsupported error",
    );
    push_row(
        &mut out,
        "entity Foo { [*] name : type }",
        Support::Supported,
        "multi-line or single-line `{ a; b }`; leading `*` marks a primary key; a bare `--` PK-separator line is skipped",
    );
    push_row(
        &mut out,
        "crow's-foot relation A ||--o{ B : label",
        Support::Supported,
        "same glyph table as kozue-mermaid's erDiagram",
    );
    push_row(
        &mut out,
        "plain (non-crow's-foot) relation A -- B",
        Support::Supported,
        "no end markers; `--` = solid, `..` = dashed — PlantUML's ER subset is smaller than Mermaid's",
    );
    push_row(
        &mut out,
        "entity Foo (no `{ ... }` block)",
        Support::Unsupported,
        "an `entity` participant declaration without a block stays a sequence participant, not an ER entity",
    );
    out
}

} // verus!

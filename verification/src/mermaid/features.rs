//! The published Mermaid compatibility table.
//!
//! The rows are kept as published. In some points they do not describe this parser,
//! which also reads subgraphs, circle nodes, the directions RL and BT and dotted and
//! thick edges, tells rectangles and rounded rectangles apart, and lets the last
//! explicit label of a node win.
use crate::text::{lemma_views_push, views};
use vstd::prelude::*;

verus! {

/// How far a Mermaid feature is supported.
#[derive(Debug, Clone, Copy, PartialEq, Eq, Structural)]
pub enum Support {
    /// Fully supported; output matches expected semantics.
    Supported,
    /// Partially supported; some aspects may differ from Mermaid.
    Partial,
    /// Not supported; produces an "unsupported" error.
    Unsupported,
}

impl Support {
    /// The level as a word.
    pub fn as_str(self) -> (r: &'static str)
        ensures
            r@ == match self {
                Support::Supported => "supported"@,
                Support::Partial => "partial"@,
                Support::Unsupported => "unsupported"@,
            },
    {
        match self {
            Support::Supported => "supported",
            Support::Partial => "partial",
            Support::Unsupported => "unsupported",
        }
    }

    /// The level as a sign.
    pub fn symbol(self) -> (r: &'static str)
        ensures
            r@ == match self {
                Support::Supported => "✓"@,
                Support::Partial => "~"@,
                Support::Unsupported => "✗"@,
            },
    {
        match self {
            Support::Supported => "✓",
            Support::Partial => "~",
            Support::Unsupported => "✗",
        }
    }
}

/// A single Mermaid feature in the compatibility table.
#[derive(Debug, Clone, Copy)]
pub struct Feature {
    /// Short human-readable feature name.
    pub name: &'static str,
    /// Support level.
    pub support: Support,
    /// A note explaining the support level or any caveats.
    pub note: &'static str,
}

/// The model of [`Feature`].
#[verifier::ext_equal]
pub struct FeatureView {
    pub name: Seq<char>,
    pub support: Support,
    pub note: Seq<char>,
}

impl View for Feature {
    type V = FeatureView;

    open spec fn view(&self) -> FeatureView {
        row(self.name@, self.support, self.note@)
    }
}

/// A row of the table.
pub open spec fn row(name: Seq<char>, support: Support, note: Seq<char>) -> FeatureView {
    FeatureView { name, support, note }
}

/// Adds a row.
fn push_row(out: &mut Vec<Feature>, name: &'static str, support: Support, note: &'static str)
    ensures
        views(final(out)@) == views(old(out)@).push(row(name@, support, note@)),
{
    broadcast use lemma_views_push;

    out.push(Feature { name, support, note });
}

/// The full Mermaid compatibility table, as published. Where a row and the parser
/// differ (see the module), the parser's contract says what is read.
pub open spec fn table() -> Seq<FeatureView> {
    seq![
        row(
            "flowchart / graph"@,
            Support::Supported,
            "flowchart TD/TB/LR; `graph` keyword also accepted"@,
        ),
        row(
            "sequenceDiagram"@,
            Support::Supported,
            "participant declarations, ->> and -->> messages, self-messages"@,
        ),
        row(
            "stateDiagram-v2 / stateDiagram"@,
            Support::Supported,
            "[*] pseudostates, --> transitions with labels, `state \"desc\" as id`, auto-declared states"@,
        ),
        row(
            "direction TD / TB"@,
            Support::Supported,
            "both map to Direction::Down"@,
        ),
        row(
            "direction LR"@,
            Support::Supported,
            "maps to Direction::Right"@,
        ),
        row(
            "direction RL"@,
            Support::Unsupported,
            "reports an unsupported error; kozue layout does not support right-to-left"@,
        ),
        row(
            "direction BT"@,
            Support::Unsupported,
            "reports an unsupported error; kozue layout does not support bottom-to-top"@,
        ),
        row(
            "rectangular node A[label]"@,
            Support::Supported,
            "maps to NodeKind::Default"@,
        ),
        row(
            "rounded node A(label)"@,
            Support::Partial,
            "parsed and label extracted; shape maps to NodeKind::Default (no round corners rendered)"@,
        ),
        row(
            "bare node A"@,
            Support::Supported,
            "auto-declared with id as label (Mermaid convention)"@,
        ),
        row(
            "node label first-occurrence wins"@,
            Support::Supported,
            "subsequent A[other label] references do not overwrite the first label"@,
        ),
        row(
            "stadium / circle node shape"@,
            Support::Unsupported,
            "`([label])` / `((label))` produce an explicit unsupported error"@,
        ),
        row(
            "arrow edge -->"@,
            Support::Supported,
            "maps to ArrowType::Triangle"@,
        ),
        row(
            "plain line edge ---"@,
            Support::Supported,
            "maps to ArrowType::None (no arrowhead drawn)"@,
        ),
        row(
            "pipe edge label -->|label|"@,
            Support::Supported,
            ""@,
        ),
        row(
            "space edge label -- label -->"@,
            Support::Supported,
            ""@,
        ),
        row(
            "chain notation A --> B --> C"@,
            Support::Supported,
            "generates one edge per link in the chain"@,
        ),
        row(
            "multi-target edge A --> B & C"@,
            Support::Unsupported,
            "reports an unsupported error; split into separate edge lines"@,
        ),
        row(
            "self-loop A --> A"@,
            Support::Unsupported,
            "reports a clear error matching kozue DSL convention"@,
        ),
        row(
            "dotted / thick edge styles"@,
            Support::Unsupported,
            "-.-> and ==> produce a syntax error"@,
        ),
        row(
            "participant X as Label"@,
            Support::Supported,
            ""@,
        ),
        row(
            "participant X (no label)"@,
            Support::Supported,
            "id used as label"@,
        ),
        row(
            "auto-declare undeclared participants"@,
            Support::Supported,
            "first-message auto-declaration follows Mermaid convention"@,
        ),
        row(
            "solid filled arrow ->>"@,
            Support::Supported,
            "LineStyle::Solid + ArrowType::Triangle"@,
        ),
        row(
            "dashed filled arrow -->>"@,
            Support::Supported,
            "LineStyle::Dashed + ArrowType::Triangle"@,
        ),
        row(
            "solid open arrow ->"@,
            Support::Partial,
            "open arrowhead not rendered; maps to Triangle (same as ->>)"@,
        ),
        row(
            "dashed open arrow -->"@,
            Support::Partial,
            "open arrowhead not rendered; maps to Triangle (same as -->>)"@,
        ),
        row(
            "self-message A->>A"@,
            Support::Supported,
            ""@,
        ),
        row(
            "Note over / Note left / Note right"@,
            Support::Unsupported,
            "reports an unsupported error"@,
        ),
        row(
            "loop block"@,
            Support::Unsupported,
            "reports an unsupported error"@,
        ),
        row(
            "alt / else block"@,
            Support::Unsupported,
            "reports an unsupported error"@,
        ),
        row(
            "activate / deactivate"@,
            Support::Unsupported,
            "reports an unsupported error"@,
        ),
        row(
            "state [*] --> S / S --> [*]"@,
            Support::Supported,
            "[*] as source maps to the initial pseudostate, as target to the final pseudostate"@,
        ),
        row(
            "state transition label S --> T : label"@,
            Support::Supported,
            "text after the colon becomes the transition label"@,
        ),
        row(
            "state \"description\" as id"@,
            Support::Supported,
            "quoted display name used as label; bare `state id` also accepted"@,
        ),
        row(
            "auto-declare states in transitions"@,
            Support::Supported,
            "states referenced only in transitions are declared with id as label"@,
        ),
        row(
            "[*] --> [*]"@,
            Support::Unsupported,
            "reports an error; initial cannot transition directly to final"@,
        ),
        row(
            "composite / nested state s { … }"@,
            Support::Unsupported,
            "reports an unsupported error; no nested regions"@,
        ),
        row(
            "fork / join / choice / history <<…>>"@,
            Support::Unsupported,
            "stereotype pseudostates report an unsupported error"@,
        ),
        row(
            "state direction"@,
            Support::Unsupported,
            "reports an unsupported error; kozue lays state diagrams top-down"@,
        ),
        row(
            "state note"@,
            Support::Unsupported,
            "reports an unsupported error"@,
        ),
        row(
            "state description (S : text)"@,
            Support::Unsupported,
            "reports an unsupported error; internal state text not rendered"@,
        ),
        row(
            "%% comments"@,
            Support::Supported,
            "comment lines are stripped before parsing"@,
        ),
        row(
            "blank lines and indentation"@,
            Support::Supported,
            ""@,
        ),
        row(
            "semicolon separator"@,
            Support::Unsupported,
            "reports an unsupported error; use newlines"@,
        ),
        row(
            "subgraph"@,
            Support::Unsupported,
            "reports an unsupported error"@,
        ),
        row(
            "classDef / class / style / linkStyle"@,
            Support::Unsupported,
            "styling keywords report an unsupported error"@,
        ),
    ]
}

/// The full Mermaid compatibility table, as published. Where a row and the parser
/// differ (see the module), the parser's contract says what is read.
#[verifier::rlimit(40)]
pub fn features() -> (r: Vec<Feature>)
    ensures
        views(r@) == table(),
{
    let mut out: Vec<Feature> = Vec::new();
    assert(views(out@) =~= Seq::<FeatureView>::empty());
    push_row(
        &mut out,
        "flowchart / graph",
        Support::Supported,
        "flowchart TD/TB/LR; `graph` keyword also accepted",
    );
    push_row(
        &mut out,
        "sequenceDiagram",
        Support::Supported,
        "participant declarations, ->> and -->> messages, self-messages",
    );
    push_row(
        &mut out,
        "stateDiagram-v2 / stateDiagram",
        Support::Supported,
        "[*] pseudostates, --> transitions with labels, `state \"desc\" as id`, auto-declared states",
    );
    push_row(
        &mut out,
        "direction TD / TB",
        Support::Supported,
        "both map to Direction::Down",
    );
    push_row(
        &mut out,
        "direction LR",
        Support::Supported,
        "maps to Direction::Right",
    );
    push_row(
        &mut out,
        "direction RL",
        Support::Unsupported,
        "reports an unsupported error; kozue layout does not support right-to-left",
    );
    push_row(
        &mut out,
        "direction BT",
        Support::Unsupported,
        "reports an unsupported error; kozue layout does not support bottom-to-top",
    );
    push_row(
        &mut out,
        "rectangular node A[label]",
        Support::Supported,
        "maps to NodeKind::Default",
    );
    push_row(
        &mut out,
        "rounded node A(label)",
        Support::Partial,
        "parsed and label extracted; shape maps to NodeKind::Default (no round corners rendered)",
    );
    push_row(
        &mut out,
        "bare node A",
        Support::Supported,
        "auto-declared with id as label (Mermaid convention)",
    );
    push_row(
        &mut out,
        "node label first-occurrence wins",
        Support::Supported,
        "subsequent A[other label] references do not overwrite the first label",
    );
    push_row(
        &mut out,
        "stadium / circle node shape",
        Support::Unsupported,
        "`([label])` / `((label))` produce an explicit unsupported error",
    );
    push_row(
        &mut out,
        "arrow edge -->",
        Support::Supported,
        "maps to ArrowType::Triangle",
    );
    push_row(
        &mut out,
        "plain line edge ---",
        Support::Supported,
        "maps to ArrowType::None (no arrowhead drawn)",
    );
    push_row(
        &mut out,
        "pipe edge label -->|label|",
        Support::Supported,
        "",
    );
    push_row(
        &mut out,
        "space edge label -- label -->",
        Support::Supported,
        "",
    );
    push_row(
        &mut out,
        "chain notation A --> B --> C",
        Support::Supported,
        "generates one edge per link in the chain",
    );
    push_row(
        &mut out,
        "multi-target edge A --> B & C",
        Support::Unsupported,
        "reports an unsupported error; split into separate edge lines",
    );
    push_row(
        &mut out,
        "self-loop A --> A",
        Support::Unsupported,
        "reports a clear error matching kozue DSL convention",
    );
    push_row(
        &mut out,
        "dotted / thick edge styles",
        Support::Unsupported,
        "-.-> and ==> produce a syntax error",
    );
    push_row(
        &mut out,
        "participant X as Label",
        Support::Supported,
        "",
    );
    push_row(
        &mut out,
        "participant X (no label)",
        Support::Supported,
        "id used as label",
    );
    push_row(
        &mut out,
        "auto-declare undeclared participants",
        Support::Supported,
        "first-message auto-declaration follows Mermaid convention",
    );
    push_row(
        &mut out,
        "solid filled arrow ->>",
        Support::Supported,
        "LineStyle::Solid + ArrowType::Triangle",
    );
    push_row(
        &mut out,
        "dashed filled arrow -->>",
        Support::Supported,
        "LineStyle::Dashed + ArrowType::Triangle",
    );
    push_row(
        &mut out,
        "solid open arrow ->",
        Support::Partial,
        "open arrowhead not rendered; maps to Triangle (same as ->>)",
    );
    push_row(
        &mut out,
        "dashed open arrow -->",
        Support::Partial,
        "open arrowhead not rendered; maps to Triangle (same as -->>)",
    );
    push_row(
        &mut out,
        "self-message A->>A",
        Support::Supported,
        "",
    );
    push_row(
        &mut out,
        "Note over / Note left / Note right",
        Support::Unsupported,
        "reports an unsupported error",
    );
    push_row(
        &mut out,
        "loop block",
        Support::Unsupported,
        "reports an unsupported error",
    );
    push_row(
        &mut out,
        "alt / else block",
        Support::Unsupported,
        "reports an unsupported error",
    );
    push_row(
        &mut out,
        "activate / deactivate",
        Support::Unsupported,
        "reports an unsupported error",
    );
    push_row(
        &mut out,
        "state [*] --> S / S --> [*]",
        Support::Supported,
        "[*] as source maps to the initial pseudostate, as target to the final pseudostate",
    );
    push_row(
        &mut out,
        "state transition label S --> T : label",
        Support::Supported,
        "text after the colon becomes the transition label",
    );
    push_row(
        &mut out,
        "state \"description\" as id",
        Support::Supported,
        "quoted display name used as label; bare `state id` also accepted",
    );
    push_row(
        &mut out,
        "auto-declare states in transitions",
        Support::Supported,
        "states referenced only in transitions are declared with id as label",
    );
    push_row(
        &mut out,
        "[*] --> [*]",
        Support::Unsupported,
        "reports an error; initial cannot transition directly to final",
    );
    push_row(
        &mut out,
        "composite / nested state s { … }",
        Support::Unsupported,
        "reports an unsupported error; no nested regions",
    );
    push_row(
        &mut out,
        "fork / join / choice / history <<…>>",
        Support::Unsupported,
        "stereotype pseudostates report an unsupported error",
    );
    push_row(
        &mut out,
        "state direction",
        Support::Unsupported,
        "reports an unsupported error; kozue lays state diagrams top-down",
    );
    push_row(
        &mut out,
        "state note",
        Support::Unsupported,
        "reports an unsupported error",
    );
    push_row(
        &mut out,
        "state description (S : text)",
        Support::Unsupported,
        "reports an unsupported error; internal state text not rendered",
    );
    push_row(
        &mut out,
        "%% comments",
        Support::Supported,
        "comment lines are stripped before parsing",
    );
    push_row(
        &mut out,
        "blank lines and indentation",
        Support::Supported,
        "",
    );
    push_row(
        &mut out,
        "semicolon separator",
        Support::Unsupported,
        "reports an unsupported error; use newlines",
    );
    push_row(
        &mut out,
        "subgraph",
        Support::Unsupported,
        "reports an unsupported error",
    );
    push_row(
        &mut out,
        "classDef / class / style / linkStyle",
        Support::Unsupported,
        "styling keywords report an unsupported error",
    );
    out
}

} // verus!

use kozue::mermaid::features::Support;
use kozue::plantuml::features::Support as PlantSupport;

#[test]
fn support_levels_have_words_and_signs() {
    assert_eq!(Support::Supported.as_str(), "supported");
    assert_eq!(Support::Partial.as_str(), "partial");
    assert_eq!(Support::Unsupported.symbol(), "✗");
    assert_eq!(PlantSupport::Unsupported.as_str(), "unsupported");
    assert_eq!(PlantSupport::Supported.symbol(), "✓");
    assert_eq!(PlantSupport::Partial.symbol(), "~");
}

#[test]
fn tables_list_every_feature() {
    let m = kozue::mermaid::features::features();
    assert_eq!(m.len(), 47);
    assert_eq!(m[0].name, "flowchart / graph");
    let p = kozue::plantuml::features::features();
    assert_eq!(p[0].name, "@startuml / @enduml");
}

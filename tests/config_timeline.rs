use pankat::config::{create_config, CliConfig, Config, ConfigCreationMode, ConfigValue, ConfigValueType};
use pankat::timeline::{series_to_link_list, tag_links_to_timeline};

fn values() -> Vec<(String, ConfigValue)> {
    vec![
        ("input".to_string(), ConfigValue { value: ConfigValueType::Path(Some("documents".to_string())), is_default: true }),
        ("output".to_string(), ConfigValue { value: ConfigValueType::Path(Some("out".to_string())), is_default: false }),
        ("brand".to_string(), ConfigValue { value: ConfigValueType::String(Some("blog".to_string())), is_default: true }),
        ("port".to_string(), ConfigValue { value: ConfigValueType::Number(Some(5000)), is_default: false }),
        ("flat".to_string(), ConfigValue { value: ConfigValueType::Path(None), is_default: false }),
        ("input".to_string(), ConfigValue { value: ConfigValueType::Path(Some("ignored".to_string())), is_default: false }),
    ]
}

#[test]
fn create_config_splits_defaults_from_set_values() {
    let d = create_config(&values(), ConfigCreationMode::OnlyDefaultValues);
    assert_eq!(d.input, Some("documents".to_string()));
    assert_eq!(d.output, None);
    assert_eq!(d.brand, Some("blog".to_string()));
    assert_eq!(d.port, None);
    let s = create_config(&values(), ConfigCreationMode::OnlySetValues);
    assert_eq!(s.input, None);
    assert_eq!(s.output, Some("out".to_string()));
    assert_eq!(s.port, Some(5000));
    assert_eq!(s.flat, None);
}

#[test]
fn merged_layers_give_a_full_config() {
    let d = create_config(&values(), ConfigCreationMode::OnlyDefaultValues);
    let s = create_config(&values(), ConfigCreationMode::OnlySetValues);
    let m = d.merge(&s);
    assert_eq!(Config::from_cli(&m), None);
    let rest = CliConfig {
        input: None,
        output: Some("elsewhere".to_string()),
        assets: Some("assets".to_string()),
        wasm: Some("wasm".to_string()),
        database: Some("db.sqlite".to_string()),
        brand: None,
        port: Some(8000),
        static_build_only: Some(false),
        flat: Some(true),
    };
    let full = rest.merge(&m);
    let c = Config::from_cli(&full).unwrap();
    assert_eq!(c.input, "documents");
    assert_eq!(c.output, "out");
    assert_eq!(c.port, 5000);
    assert!(c.flat);
}

#[test]
fn tag_links() {
    assert_eq!(tag_links_to_timeline(None), "");
    assert_eq!(
        tag_links_to_timeline(Some(vec!["nix".to_string(), "rust".to_string()])),
        "<a href=\"timeline.html?filter=tag::nix\" class=\"tagbtn btn btn-primary\">nix</a><a href=\"timeline.html?filter=tag::rust\" class=\"tagbtn btn btn-primary\">rust</a>"
    );
}

#[test]
fn series_link() {
    assert_eq!(series_to_link_list(None), "");
    assert_eq!(
        series_to_link_list(Some("nixos".to_string())),
        "<a class=\"seriesbtn btn btn-primary\" onClick=\"setFilter('series::nixos', 1)\">nixos</a>"
    );
}

#[test]
fn tag_filter_buttons() {
    let mut a = pankat::article::ArticleWithTags::new("a.mdwn".to_string(), "a.html".to_string());
    assert_eq!(pankat::timeline::tag_to_link_list(&a), "");
    a.tags = Some(vec!["nix".to_string()]);
    assert_eq!(
        pankat::timeline::tag_to_link_list(&a),
        "<a class=\"tagbtn btn btn-primary\" onClick=\"setFilter('tag::nix', 1)\">nix</a>"
    );
}

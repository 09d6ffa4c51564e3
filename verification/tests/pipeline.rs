use indexmap::IndexMap;
use moonshine::css::Declarations;
use moonshine::errors::{describe_rc_file_open_error, OpenErrorKind};
use moonshine::instruction::{generate_rules, stringify_rules, Config, FromVariableGroup, Instruction};
use moonshine::pipeline::{distill, merge_token_groups};
use moonshine::strmap::StrMap;
use moonshine::template::{CSSTemplate, Options, TemplatePatterns};
use moonshine::transformation::TokenGroups;

fn group(pairs: &[(&str, &str)]) -> StrMap<String> {
    let mut m = StrMap::new();
    for (k, v) in pairs {
        m.insert(k.to_string(), v.to_string());
    }
    m
}

#[test]
fn rc_file_open_messages() {
    assert_eq!(describe_rc_file_open_error(OpenErrorKind::NotFound, ".moonshinerc"), "Cannot find RC file: `.moonshinerc`");
    assert_eq!(describe_rc_file_open_error(OpenErrorKind::Other, ".moonshinerc"), "Failed to open `.moonshinerc`.");
}

#[test]
fn later_token_files_replace_groups_of_the_same_name() {
    let mut all: TokenGroups = StrMap::new();
    let mut first: TokenGroups = StrMap::new();
    first.insert("colors".to_string(), group(&[("red", "#f00")]));
    first.insert("space".to_string(), group(&[("1", "4px")]));
    let mut second: TokenGroups = StrMap::new();
    second.insert("colors".to_string(), group(&[("blue", "#00f")]));
    merge_token_groups(&mut all, &first);
    merge_token_groups(&mut all, &second);
    assert_eq!(all.len(), 2);
    let colors = all.get("colors").unwrap();
    assert_eq!(colors.len(), 1);
    assert_eq!(colors.get("blue"), Some(&"#00f".to_string()));
    assert!(all.get("space").is_some());
}

#[test]
fn distill_writes_root_variables_and_atoms() {
    let mut tokens: TokenGroups = StrMap::new();
    tokens.insert("colors".to_string(), group(&[("red", "#f00")]));
    let mut block = IndexMap::new();
    block.insert("color".to_string(), "$colors.value".to_string());
    let mut ruleset: CSSTemplate = IndexMap::new();
    ruleset.insert("text-[$colors.key]".to_string(), block);
    let patterns = TemplatePatterns::compile().unwrap();
    let sheets = distill(&tokens, &vec![ruleset], &Options::default(), &patterns).unwrap();
    assert_eq!(sheets.variables_css, ":root{--_red:#f00;}\n");
    assert_eq!(sheets.atoms_css, ".text-red{color:#f00;}\n");
    assert_eq!(sheets.atoms.normal_rules.len(), 1);
}

#[test]
fn distill_refuses_a_loop_over_a_missing_group() {
    let tokens: TokenGroups = StrMap::new();
    let mut block = IndexMap::new();
    block.insert("color".to_string(), "$colors.value".to_string());
    let mut ruleset: CSSTemplate = IndexMap::new();
    ruleset.insert("text-[$colors.key]".to_string(), block);
    let patterns = TemplatePatterns::compile().unwrap();
    let r = distill(&tokens, &vec![ruleset], &Options::default(), &patterns);
    assert_eq!(r.err(), Some("There is no input group named \"colors\"".to_string()));
}

#[test]
fn last_instruction_with_an_id_wins() {
    let single = |selector: &str| {
        Instruction::SingleRuleFromVariableGroup(FromVariableGroup {
            id: "same".to_string(),
            description: "d".to_string(),
            variable_group: "g".to_string(),
            selector: selector.to_string(),
            declarations: {
                let mut d = Declarations::new();
                d.insert("x".to_string(), "{{ VAL }}".to_string());
                d
            },
        })
    };
    let mut groups = StrMap::new();
    groups.insert("g".to_string(), group(&[("k", "v")]));
    let config = Config { variable_groups: groups, instructions: vec![single(".first"), single(".second")] };
    assert_eq!(stringify_rules(generate_rules(config)), ".second{x:v;}\n");
}

use brush_core::completion::{CompleteAction, CompleteOption, Config, GenerationOptions, Spec, SpecName, SpecialSpec};

fn spec_with(word_list: &str) -> Spec {
    Spec { word_list: Some(word_list.to_owned()), ..Spec::default() }
}

fn word_list_of(spec: Option<&Spec>) -> Option<String> {
    spec.and_then(|s| s.word_list.clone())
}

#[test]
fn spec_names_parse_specials() {
    assert_eq!(SpecName::parse("_DefaultCmD_"), SpecName::Special(SpecialSpec::Default));
    assert_eq!(SpecName::parse("_EmptycmD_"), SpecName::Special(SpecialSpec::EmptyLine));
    assert_eq!(SpecName::parse("_InitialWorD_"), SpecName::Special(SpecialSpec::InitialWord));
    assert_eq!(SpecName::parse("git"), SpecName::Command("git"));
    assert_eq!(SpecName::Special(SpecialSpec::Default).as_str(), "_DefaultCmD_");
    assert_eq!(SpecName::Command("ls").as_str(), "ls");
    assert_eq!(SpecialSpec::from_command_name("_EmptycmD_"), Some(SpecialSpec::EmptyLine));
    assert_eq!(SpecialSpec::from_command_name("ls"), None);
    assert_eq!(SpecialSpec::InitialWord.command_name(), "_InitialWorD_");
}

#[test]
fn config_set_get_remove() {
    let mut config = Config::default();
    assert!(config.get(SpecName::Command("git")).is_none());
    config.set(SpecName::Command("git"), spec_with("a"));
    config.set(SpecName::Command("git"), spec_with("b"));
    config.set(SpecName::Special(SpecialSpec::Default), spec_with("d"));
    assert_eq!(word_list_of(config.get(SpecName::Command("git"))), Some("b".into()));
    assert_eq!(word_list_of(config.get(SpecName::Special(SpecialSpec::Default))), Some("d".into()));
    if let Some(spec) = config.get_mut(SpecName::Command("git")) {
        spec.word_list = Some("c".into());
    }
    assert_eq!(word_list_of(config.get(SpecName::Command("git"))), Some("c".into()));
    assert!(config.remove(SpecName::Command("git")));
    assert!(!config.remove(SpecName::Command("git")));
    assert!(config.get(SpecName::Command("git")).is_none());
    config.clear();
    assert!(config.get(SpecName::Special(SpecialSpec::Default)).is_none());
}

#[test]
fn find_spec_prefers_empty_line_then_initial_word_then_command() {
    let mut config = Config::default();
    config.set(SpecName::Special(SpecialSpec::EmptyLine), spec_with("empty"));
    config.set(SpecName::Special(SpecialSpec::InitialWord), spec_with("initial"));
    config.set(SpecName::Command("git"), spec_with("git"));
    config.set(SpecName::Special(SpecialSpec::Default), spec_with("default"));

    let (spec, name) = config.find_spec("", 0, None, None).unwrap();
    assert_eq!(spec.word_list.as_deref(), Some("empty"));
    assert_eq!(name, Some("_EmptycmD_"));

    let (spec, name) = config.find_spec("gi", 2, Some(0), Some("gi")).unwrap();
    assert_eq!(spec.word_list.as_deref(), Some("initial"));
    assert_eq!(name, Some("_InitialWorD_"));

    let (spec, name) = config.find_spec("git st", 6, Some(1), Some("git")).unwrap();
    assert_eq!(spec.word_list.as_deref(), Some("git"));
    assert_eq!(name, Some("git"));

    // A path finds the spec of its file name.
    let (spec, _) = config.find_spec("/usr/bin/git st", 15, Some(1), Some("/usr/bin/git")).unwrap();
    assert_eq!(spec.word_list.as_deref(), Some("git"));

    let (spec, name) = config.find_spec("make x", 6, Some(1), Some("make")).unwrap();
    assert_eq!(spec.word_list.as_deref(), Some("default"));
    assert_eq!(name, Some("make"));

    assert!(config.find_spec("make x", 6, Some(1), None).is_none());
}

#[test]
fn generation_options_set_and_get() {
    let mut options = GenerationOptions::from_options(&[CompleteOption::FileNames]);
    assert!(options.get(CompleteOption::FileNames));
    assert!(!options.get(CompleteOption::NoSpace));
    options.set(CompleteOption::NoSpace, true);
    assert!(options.get(CompleteOption::NoSpace));
    options.set(CompleteOption::FileNames, false);
    assert!(!options.get(CompleteOption::FileNames));
    assert!(!GenerationOptions::default().get(CompleteOption::PlusDirs));
}

#[test]
fn spec_defaults_to_no_actions() {
    let spec = Spec::default();
    assert!(spec.actions.is_empty());
    let spec = Spec { actions: vec![CompleteAction::Directory], ..Spec::default() };
    assert_eq!(spec.actions.len(), 1);
}

#[test]
fn config_iter_lists_each_spec_once() {
    let mut config = Config::default();
    config.set(SpecName::Command("git"), spec_with("g"));
    config.set(SpecName::Command("ls"), spec_with("l"));
    config.set(SpecName::Special(SpecialSpec::Default), spec_with("d"));
    let mut listed: Vec<(String, Option<String>)> =
        config.iter().into_iter().map(|(name, spec)| (name.as_str().to_owned(), spec.word_list.clone())).collect();
    listed.sort();
    assert_eq!(
        listed,
        vec![
            ("_DefaultCmD_".to_owned(), Some("d".to_owned())),
            ("git".to_owned(), Some("g".to_owned())),
            ("ls".to_owned(), Some("l".to_owned())),
        ]
    );
}

use brush_core::completion::actions::{
    action_candidates, action_match_word, add_prefix_suffix, filter_pattern_mode, word_list_candidates,
};

#[test]
fn actions_match_words_as_bash_does() {
    assert_eq!(action_match_word(CompleteAction::Command, "'ls"), "'ls");
    assert_eq!(action_match_word(CompleteAction::Variable, "'HO"), "HO");
    assert_eq!(action_candidates(CompleteAction::Variable, "H", &["PATH", "HOME", "HIST"]), vec!["HOME", "HIST"]);
    assert_eq!(action_candidates(CompleteAction::Function, "f", &["fz", "fa", "g"]), vec!["fa", "fz"]);
    let words = vec!["alpha".to_owned(), "beta".to_owned(), "alps".to_owned()];
    assert_eq!(word_list_candidates(&words, "\"al"), vec!["alpha", "alps"]);
}

#[test]
fn filter_pattern_and_affixes() {
    assert_eq!(filter_pattern_mode("!*.o", false), ("*.o".to_owned(), true));
    assert_eq!(filter_pattern_mode("!(a)", true), ("!(a)".to_owned(), false));
    assert_eq!(filter_pattern_mode("!(a)", false), ("(a)".to_owned(), true));
    assert_eq!(filter_pattern_mode("*.o", true), ("*.o".to_owned(), false));
    let c = vec!["a".to_owned(), "b".to_owned()];
    assert_eq!(add_prefix_suffix(c.clone(), Some("<"), None), vec!["<a", "<b"]);
    assert_eq!(add_prefix_suffix(c.clone(), None, Some(">")), vec!["a>", "b>"]);
    assert_eq!(add_prefix_suffix(c, None, None), vec!["a", "b"]);
}

use brush_core::completion::actions::apply_filter;

#[test]
fn filter_keeps_candidates_by_match() {
    let c = vec!["a.o".to_owned(), "b.c".to_owned(), "c.o".to_owned()];
    assert_eq!(apply_filter(c.clone(), &[true, false, true], false), vec!["b.c"]);
    assert_eq!(apply_filter(c, &[true, false, true], true), vec!["a.o", "c.o"]);
}

#[test]
fn generation_options_equal_when_they_enable_the_same_options() {
    let a = GenerationOptions::from_options(&[CompleteOption::NoSpace, CompleteOption::FileNames]);
    let b = GenerationOptions::from_options(&[CompleteOption::FileNames, CompleteOption::NoSpace, CompleteOption::FileNames]);
    assert_eq!(a, b);
    let mut c = GenerationOptions::default();
    c.set(CompleteOption::FileNames, true);
    c.set(CompleteOption::NoSort, true);
    c.set(CompleteOption::NoSpace, true);
    c.set(CompleteOption::NoSort, false);
    assert_eq!(a, c);
    assert_ne!(a, GenerationOptions::default());
}

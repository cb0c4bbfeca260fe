use prompt_compiler::compiler::CompileError;
use prompt_compiler::composer::CompositionError;
use prompt_compiler::number::parses_as_float;
use prompt_compiler::template::RenderError;
use prompt_compiler::token_budget::TokenError;
use prompt_compiler::{
    PromptCompiler, PromptComposer, PromptTemplate, PromptValidator, PromptVersion, SectionChange,
    StrMap, TokenBudget, ValidationError, Variable, VariableType,
};

fn var(name: &str, var_type: VariableType, default: Option<&str>) -> Variable {
    Variable {
        name: name.to_string(),
        var_type,
        default: default.map(|d| d.to_string()),
        description: None,
    }
}

fn values(pairs: &[(&str, &str)]) -> StrMap<String> {
    let mut m = StrMap::new();
    for (k, v) in pairs {
        m.insert(k.to_string(), v.to_string());
    }
    m
}

// ─── Text and numbers ────────────────────────────────────────────────────────

#[test]
fn float_grammar_matches_std_parse() {
    let cases = [
        "42", "-42", "+3.5", "3.", ".5", ".", "", "e5", "1e5", "1E+5", "1e-5", "1e", "1e+",
        "inf", "-inf", "+Infinity", "INF", "nan", "NaN", "-nan", "infin", "1.2.3", "1_000",
        " 1", "1 ", "0x10", "1e5.0", "--1", "+", "-", "12abc", "not_a_number", "١",
    ];
    for c in cases.iter() {
        assert_eq!(parses_as_float(c), c.parse::<f64>().is_ok(), "input {c:?}");
    }
}

#[test]
fn str_map_insert_overwrites_in_place() {
    let mut m = StrMap::new();
    m.insert("a".to_string(), "1".to_string());
    m.insert("b".to_string(), "2".to_string());
    m.insert("a".to_string(), "3".to_string());
    assert_eq!(m.len(), 2);
    assert_eq!(m.get("a"), Some(&"3".to_string()));
    assert_eq!(m.key_at(0), "a");
    assert_eq!(m.key_at(1), "b");
    assert!(m.get("c").is_none());
    assert!(m.contains_key("b"));
    assert!(!m.contains_key("B"));
}

// ─── Templates ───────────────────────────────────────────────────────────────

#[test]
fn placeholders_come_from_the_regex() {
    let tpl = PromptTemplate::new("t", "T", "{{{a}}} {{ b }} {{c_1}}{{}} {{d}}");
    assert_eq!(tpl.placeholders(), vec!["a", "c_1", "d"]);
}

#[test]
fn render_replaces_every_occurrence() {
    let tpl = PromptTemplate::new("t", "T", "{{x}}-{{x}}-{{y}}");
    let r = tpl.render(&values(&[("x", "1"), ("y", "2")])).unwrap();
    assert_eq!(r, "1-1-2");
}

#[test]
fn render_missing_variable_names_it() {
    let tpl = PromptTemplate::new("t", "T", "{{a}} {{b}}").with_variable(var("b", VariableType::String, None));
    match tpl.render(&values(&[("a", "1")])) {
        Err(RenderError::MissingVariable(n)) => assert_eq!(n, "b"),
        other => panic!("unexpected {other:?}"),
    }
}

#[test]
fn render_reports_missing_before_type_errors() {
    let tpl = PromptTemplate::new("t", "T", "{{n}} {{m}}").with_variable(var("n", VariableType::Number, None));
    match tpl.render(&values(&[("n", "abc")])) {
        Err(RenderError::MissingVariable(n)) => assert_eq!(n, "m"),
        other => panic!("unexpected {other:?}"),
    }
}

#[test]
fn render_type_error_messages() {
    let tpl = PromptTemplate::new("t", "T", "{{n}}").with_variable(var("n", VariableType::Number, None));
    match tpl.render(&values(&[("n", "abc")])) {
        Err(e @ RenderError::TypeError { .. }) => {
            assert_eq!(e.to_string(), "Type error for variable 'n': Expected number, got: abc")
        }
        other => panic!("unexpected {other:?}"),
    }
    let tpl = PromptTemplate::new("t", "T", "{{m}}").with_variable(var(
        "m",
        VariableType::Enum(vec!["fast".into(), "slow".into()]),
        None,
    ));
    match tpl.render(&values(&[("m", "turbo")])) {
        Err(RenderError::TypeError { variable, message }) => {
            assert_eq!(variable, "m");
            assert_eq!(message, "Value 'turbo' not in allowed values: [\"fast\", \"slow\"]");
        }
        other => panic!("unexpected {other:?}"),
    }
    assert_eq!(RenderError::MissingVariable("q".into()).to_string(), "Missing variable: q");
}

#[test]
fn render_given_value_wins_over_default() {
    let tpl = PromptTemplate::new("t", "T", "Hi {{n}}").with_variable(var("n", VariableType::String, Some("d")));
    assert_eq!(tpl.render(&values(&[("n", "v")])).unwrap(), "Hi v");
    assert_eq!(tpl.render(&StrMap::new()).unwrap(), "Hi d");
}

#[test]
fn render_without_placeholders_is_identity() {
    let tpl = PromptTemplate::new("t", "T", "Plain text.");
    assert_eq!(tpl.render(&StrMap::new()).unwrap(), "Plain text.");
}

#[test]
fn validate_variable_types() {
    assert!(VariableType::String.validate("anything").is_ok());
    assert!(VariableType::Number.validate("1e3").is_ok());
    assert_eq!(VariableType::Number.validate("x").unwrap_err(), "Expected number, got: x");
    assert!(VariableType::Enum(vec!["a".into()]).validate("a").is_ok());
    assert!(VariableType::Enum(vec!["a".into()]).validate("b").is_err());
}

// ─── Token budget ────────────────────────────────────────────────────────────

#[test]
fn estimate_exact_values() {
    let b = TokenBudget::new(100);
    // 11 bytes / 4 rounded up = 3; 2 words.
    assert_eq!(b.estimate_tokens("Hello world"), 3);
    // 5 one-letter words in 9 bytes: the word count wins.
    assert_eq!(b.estimate_tokens("a b c d e"), 5);
    // "é" is two bytes.
    assert_eq!(b.estimate_tokens("ééé"), 2);
    assert_eq!(b.remaining("Hello world"), 97);
    assert_eq!(b.max_tokens(), 100);
}

#[test]
fn custom_ratio() {
    let b = TokenBudget::new(10).with_chars_per_token(1, 2);
    // 4 bytes at half a byte per token: 8 tokens.
    assert_eq!(b.estimate_tokens("abcd"), 8);
    let z = TokenBudget::new(10).with_chars_per_token(0, 1);
    assert_eq!(z.estimate_tokens("a"), usize::MAX);
    assert_eq!(z.estimate_tokens(""), 0);
}

#[test]
fn validate_exceeded_error() {
    let b = TokenBudget::new(2);
    match b.validate("one two three") {
        Err(e @ TokenError::Exceeded { .. }) => {
            assert_eq!(e.to_string(), "Token limit exceeded: estimated 4 tokens, max is 2")
        }
        other => panic!("unexpected {other:?}"),
    }
    assert_eq!(b.remaining("one two three"), 0);
    assert_eq!(TokenError::EstimationFailed("x".into()).to_string(), "Token estimation failed for text: x");
}

#[test]
fn truncate_at_sentence_end() {
    let b = TokenBudget::new(5); // 20 bytes
    let t = "First one. Second sentence goes on and on.";
    assert_eq!(b.truncate_to_budget(t), "First one.");
}

#[test]
fn truncate_at_ideographic_full_stop() {
    let b = TokenBudget::new(3); // 12 bytes
    let t = "ab\u{3002}cdefghijklmnopqrstuvwxyz";
    assert_eq!(b.truncate_to_budget(t), "ab\u{3002}");
}

#[test]
fn truncate_at_space_and_hard_cut() {
    let b = TokenBudget::new(2); // 8 bytes
    assert_eq!(b.truncate_to_budget("abc defghijklmnop"), "abc");
    assert_eq!(b.truncate_to_budget("abcdefghijklmnop"), "abcdefgh");
}

#[test]
fn truncate_is_prefix_and_idempotent() {
    let b = TokenBudget::new(4);
    let t = "Some words here. More words that go past the budget for sure.";
    let once = b.truncate_to_budget(t);
    assert!(t.starts_with(&once));
    assert_eq!(b.truncate_to_budget(&once), once);
}

#[test]
fn truncate_multibyte_text_on_a_character_boundary() {
    let b = TokenBudget::new(1); // 4 bytes
    // "aéé…": bytes a(1) é(2) é(2): byte 4 falls inside the second "é".
    let t = "aééééééééé";
    assert_eq!(b.truncate_to_budget(t), "a\u{e9}");
    let cjk = "\u{4f60}\u{597d}\u{4e16}\u{754c}\u{3002}";
    let r = b.truncate_to_budget(cjk);
    assert_eq!(r, "\u{4f60}");
    assert!(b.is_within_budget(&r));
}

#[test]
fn truncate_shortens_text_whose_words_exceed_the_budget() {
    let b = TokenBudget::new(1);
    assert_eq!(b.truncate_to_budget("a b"), "a");
    let b = TokenBudget::new(2);
    assert_eq!(b.truncate_to_budget("one\ttwo three"), "one\ttwo");
    assert_eq!(b.truncate_to_budget("   "), "   ");
}

// ─── Composer ────────────────────────────────────────────────────────────────

#[test]
fn composer_render_failure_names_stage() {
    let c = PromptComposer::new()
        .add_stage(PromptTemplate::new("t1", "First", "ok"))
        .add_labeled_stage(PromptTemplate::new("t2", "Second", "{{x}}"), "custom");
    match c.compose(&StrMap::new()) {
        Err(e @ CompositionError::RenderFailed { .. }) => {
            assert_eq!(e.to_string(), "Render error at stage 'custom': Missing variable: x")
        }
        other => panic!("unexpected {other:?}"),
    }
    assert_eq!(c.stage_count(), 2);
}

#[test]
fn composer_budget_exceeded_error() {
    let c = PromptComposer::new()
        .with_token_budget(TokenBudget::new(5))
        .add_stage(PromptTemplate::new("t1", "Long", &"Word ".repeat(200)));
    match c.compose(&StrMap::new()) {
        Err(e @ CompositionError::TokenBudgetExceeded { .. }) => {
            assert_eq!(e.to_string(), "Token budget exceeded at stage 'final_output': used 250, max 5")
        }
        other => panic!("unexpected {other:?}"),
    }
}

#[test]
fn composer_output_within_budget_is_unchanged() {
    let c = PromptComposer::new()
        .with_token_budget(TokenBudget::new(100))
        .add_stage(PromptTemplate::new("t1", "A", "short"))
        .add_stage(PromptTemplate::new("t2", "B", "text"));
    assert_eq!(c.compose(&StrMap::new()).unwrap(), "short\n\ntext");
    assert_eq!(PromptComposer::new().compose(&StrMap::new()).unwrap_err().to_string(), "Empty pipeline: no stages added");
}

#[test]
fn chained_feeds_each_output_forward() {
    let c = PromptComposer::new()
        .add_stage(PromptTemplate::new("a", "A", "one"))
        .add_stage(PromptTemplate::new("b", "B", "[{{previous_output}}]"))
        .add_stage(PromptTemplate::new("c", "C", "<{{previous_output}}>"));
    assert_eq!(c.compose_chained(&StrMap::new()).unwrap(), "<[one]>");
}

// ─── Compiler ────────────────────────────────────────────────────────────────

#[test]
fn compiler_strict_messages() {
    let tpl = PromptTemplate::new("t1", "T", "{{a}} {{b}}").with_variable(var("a", VariableType::String, None));
    let r = PromptCompiler::new().add_template(tpl).strict().compile();
    match r {
        Err(e @ CompileError::Validation(_)) => {
            assert_eq!(e.to_string(), "Validation failed: Template 't1': missing required variable 'a'")
        }
        other => panic!("unexpected {other:?}"),
    }
    let tpl = PromptTemplate::new("t2", "T", "{{b}}");
    match PromptCompiler::new().add_template(tpl).strict().compile() {
        Err(CompileError::Validation(m)) => assert_eq!(m, "Template 't2': undefined variable 'b'"),
        other => panic!("unexpected {other:?}"),
    }
}

#[test]
fn compiler_render_error_becomes_type_error() {
    let tpl = PromptTemplate::new("t1", "T", "{{a}}");
    match PromptCompiler::new().add_template(tpl).compile() {
        Err(CompileError::TypeError(m)) => assert_eq!(m, "Missing variable: a"),
        other => panic!("unexpected {other:?}"),
    }
    assert_eq!(CompileError::Empty.to_string(), "Empty compiler: no templates or stages configured");
}

#[test]
fn compiler_separator_and_variables() {
    let r = PromptCompiler::new()
        .add_template(PromptTemplate::new("a", "A", "{{x}}"))
        .add_template(PromptTemplate::new("b", "B", "{{y}}"))
        .set_variables(values(&[("x", "1"), ("y", "2")]))
        .with_separator(" | ")
        .compile()
        .unwrap();
    assert_eq!(r, "1 | 2");
    let d = PromptCompiler::default().add_template(PromptTemplate::new("a", "A", "z")).compile().unwrap();
    assert_eq!(d, "z");
}

#[test]
fn compiler_pipelined_agrees_with_compile() {
    let build = || {
        PromptCompiler::new()
            .add_template(PromptTemplate::new("a", "A", "You are {{r}}."))
            .add_template(PromptTemplate::new("b", "B", "Do {{t}}."))
            .set_variable("r", "x")
            .set_variable("t", "y")
    };
    assert_eq!(build().compile().unwrap(), build().compile_pipelined().unwrap());
    assert_eq!(build().compile().unwrap(), "You are x.\n\nDo y.");
}

#[test]
fn compiler_truncates_multibyte_output() {
    let c = PromptCompiler::new()
        .add_template(PromptTemplate::new("a", "A", "aééééééééé"))
        .with_token_budget(TokenBudget::new(1));
    assert_eq!(c.compile().unwrap(), "a\u{e9}");
    let c = PromptCompiler::new()
        .add_template(PromptTemplate::new("a", "A", "abcdefghijkl"))
        .with_token_budget(TokenBudget::new(1));
    assert_eq!(c.compile().unwrap(), "abcd");
}

// ─── Validator ───────────────────────────────────────────────────────────────

#[test]
fn validator_error_order_and_messages() {
    let tpl = PromptTemplate::new("t1", "T", "{{a}} {{b}} {{a}}").with_variable(var("a", VariableType::String, None));
    let errors = PromptValidator::new().with_max_length(5).validate_template(&tpl);
    let texts: Vec<String> = errors.iter().map(|e| e.to_string()).collect();
    assert_eq!(
        texts,
        vec![
            "Template 't1': duplicate variable 'a'",
            "Template 't1': placeholder 'b' has no variable definition",
            "Template 't1': length 17 exceeds max 5",
        ]
    );
}

#[test]
fn validator_pipeline_checks() {
    let v = PromptValidator::new();
    assert_eq!(v.validate_pipeline(&PromptComposer::new()), vec![ValidationError::EmptyPipeline]);
    let mut c = PromptComposer::new();
    for i in 0..51 {
        c = c.add_stage(PromptTemplate::new(&format!("t{i}"), "T", "x"));
    }
    match &v.validate_pipeline(&c)[..] {
        [ValidationError::ExcessiveLength { template_id, length, max }] => {
            assert_eq!((template_id.as_str(), *length, *max), ("pipeline", 51, 50))
        }
        other => panic!("unexpected {other:?}"),
    }
    let ok = PromptComposer::default().add_stage(PromptTemplate::new("t", "T", "x"));
    assert!(PromptValidator::default().validate_pipeline(&ok).is_empty());
}

#[test]
fn validator_remaining_messages() {
    let e = ValidationError::CircularReference { template_ids: vec!["a".into(), "b".into(), "a".into()] };
    assert_eq!(e.to_string(), "Circular reference detected: a -> b -> a");
    let e = ValidationError::InvalidTemplate { template_id: "t".into(), reason: "bad".into() };
    assert_eq!(e.to_string(), "Template 't': invalid template: bad");
    let e = ValidationError::EmptySection { template_id: "t".into(), section: "s".into() };
    assert_eq!(e.to_string(), "Template 't': empty section 's'");
    let e = ValidationError::MissingVariable { template_id: "t".into(), variable: "v".into() };
    assert_eq!(e.to_string(), "Template 't': missing required variable 'v'");
    assert_eq!(ValidationError::EmptyPipeline.to_string(), "Empty pipeline: no stages to validate");
}

#[test]
fn validator_variables_with_defaults_pass() {
    let tpl = PromptTemplate::new("t1", "T", "{{a}} {{b}} {{c}}")
        .with_variable(var("a", VariableType::String, Some("x")))
        .with_variable(var("b", VariableType::String, None));
    let errors = PromptValidator::new().validate_variables(&tpl, &StrMap::new());
    assert_eq!(
        errors,
        vec![ValidationError::MissingVariable { template_id: "t1".into(), variable: "b".into() }]
    );
}

// ─── Versions ────────────────────────────────────────────────────────────────

#[test]
fn sections_parse() {
    let pv = PromptVersion::new("p", "P");
    let s = pv.parse_sections("intro line\n## A \n a1\r\n\n## B\n   \n## A\nsecond\n");
    assert_eq!(s.len(), 2);
    assert_eq!(s.get("header"), Some(&"intro line".to_string()));
    assert_eq!(s.get("A"), Some(&"second".to_string()));
    assert!(s.get("B").is_none());
}

#[test]
fn diff_reports_each_kind_of_change() {
    let mut pv = PromptVersion::new("p", "P").with_initial_template("## A\nx\n## B\ny\n## C\nz");
    pv.commit("## A\nx\n## B\nchanged\n## D\nnew");
    let d = pv.diff(1, 2).unwrap();
    assert_eq!(d.section_changes.get("A"), Some(&SectionChange::Unchanged));
    assert_eq!(
        d.section_changes.get("B"),
        Some(&SectionChange::Changed { old: "y".into(), new: "changed".into() })
    );
    assert_eq!(d.section_changes.get("C"), Some(&SectionChange::Removed { content: "z".into() }));
    assert_eq!(d.section_changes.get("D"), Some(&SectionChange::Added { content: "new".into() }));
    assert_eq!(d.section_changes.len(), 4);
    assert_eq!(d.change_count(), 4);
    assert!(d.variable_changes.is_empty());
    assert_eq!((d.from_version, d.to_version), (1, 2));
    assert_eq!(pv.diff(3, 1).unwrap_err(), "Version 3 not found");
}

#[test]
fn rollback_then_commit_continues_numbering() {
    let mut pv = PromptVersion::new("p", "P").with_initial_template("v1");
    assert_eq!(pv.commit("v2"), 2);
    assert_eq!(pv.commit("v3"), 3);
    assert_eq!(pv.rollback(7).unwrap_err(), "Version 7 not found");
    assert_eq!(pv.current_version(), 3);
    pv.rollback(2).unwrap();
    assert_eq!(pv.current_template(), Some("v2"));
    assert_eq!(pv.list_versions(), vec![1, 2]);
    assert_eq!(pv.commit("v3b"), 3);
    assert_eq!(pv.current_template(), Some("v3b"));
    assert!(PromptVersion::new("q", "Q").current_template().is_none());
}

#[test]
fn section_change_display() {
    assert_eq!(SectionChange::Added { content: "a".into() }.to_string(), "+ a");
    assert_eq!(SectionChange::Removed { content: "a".into() }.to_string(), "- a");
    assert_eq!(SectionChange::Changed { old: "a".into(), new: "b".into() }.to_string(), "- a\n+ b");
    assert_eq!(SectionChange::Unchanged.to_string(), "  (unchanged)");
}

#[test]
fn remaining_error_texts() {
    let e = CompositionError::CircularReference { stage: "s".into() };
    assert_eq!(e.to_string(), "Circular reference detected: pipeline stage 's' referenced itself");
    assert_eq!(CompileError::MissingVariable("m".into()).to_string(), "Missing variable: m");
    assert_eq!(CompileError::TokenBudget("over".into()).to_string(), "Token budget exceeded: over");
}

#[test]
fn compile_pipelined_wraps_composition_errors() {
    let r = PromptCompiler::new().add_template(PromptTemplate::new("a", "Named", "{{x}}")).compile_pipelined();
    match r {
        Err(e @ CompileError::Composition(_)) => assert_eq!(
            e.to_string(),
            "Composition error: Render error at stage 'Named': Missing variable: x"
        ),
        other => panic!("unexpected {other:?}"),
    }
    let r = PromptCompiler::new().compile_chained();
    assert!(matches!(r, Err(CompileError::Empty)));
}

#[test]
fn truncation_shortens_to_fit_word_count() {
    let b = TokenBudget::new(3);
    let t = "a b c d e f g h i j k l m n o p q r s t u v w x y z";
    let r = b.truncate_to_budget(t);
    assert_eq!(r, "a b c");
    assert!(t.starts_with(&r));
    assert!(b.is_within_budget(&r));
}

#[test]
fn validator_counts_length_in_characters() {
    let tpl = PromptTemplate::new("t1", "Test", "\u{e9}\u{e9}\u{e9}");
    assert!(PromptValidator::new().with_max_length(5).validate_template(&tpl).is_empty());
    assert_eq!(
        PromptValidator::new().with_max_length(2).validate_template(&tpl),
        vec![ValidationError::ExcessiveLength { template_id: "t1".into(), length: 3, max: 2 }]
    );
}

#[test]
fn validator_reports_circular_reference() {
    let c = PromptComposer::new()
        .add_stage(PromptTemplate::new("t1", "A", "x"))
        .add_stage(PromptTemplate::new("t2", "B", "y"))
        .add_stage(PromptTemplate::new("t1", "C", "z"))
        .add_stage(PromptTemplate::new("t2", "D", "w"));
    let errors = PromptValidator::new().validate_pipeline(&c);
    assert_eq!(
        errors,
        vec![ValidationError::CircularReference {
            template_ids: vec!["t1".into(), "t2".into(), "t1".into()]
        }]
    );
    assert_eq!(errors[0].to_string(), "Circular reference detected: t1 -> t2 -> t1");
    let twice = PromptComposer::new()
        .add_stage(PromptTemplate::new("t1", "A", "x"))
        .add_stage(PromptTemplate::new("t1", "B", "y"));
    assert_eq!(
        PromptValidator::new().validate_pipeline(&twice),
        vec![ValidationError::CircularReference { template_ids: vec!["t1".into(), "t1".into()] }]
    );
}

#[test]
fn diff_in_the_other_order_mirrors() {
    let mut pv = PromptVersion::new("p", "P").with_initial_template("## A\nx\n## B\ny\n## C\nz");
    pv.commit("## A\nx\n## B\nchanged\n## D\nnew");
    let back = pv.diff(2, 1).unwrap();
    assert_eq!(back.section_changes.get("A"), Some(&SectionChange::Unchanged));
    assert_eq!(
        back.section_changes.get("B"),
        Some(&SectionChange::Changed { old: "changed".into(), new: "y".into() })
    );
    assert_eq!(back.section_changes.get("C"), Some(&SectionChange::Added { content: "z".into() }));
    assert_eq!(back.section_changes.get("D"), Some(&SectionChange::Removed { content: "new".into() }));
    assert!(back.template_changed);
    assert_eq!(back.change_count(), pv.diff(1, 2).unwrap().change_count());
}

#[test]
fn versions_stay_consecutive() {
    let mut pv = PromptVersion::new("p", "P").with_initial_template("one");
    pv.commit("two");
    pv.commit("three");
    assert_eq!(pv.list_versions(), vec![1, 2, 3]);
    pv.rollback(1).unwrap();
    assert_eq!(pv.list_versions(), vec![1]);
    pv.commit("two again");
    assert_eq!(pv.list_versions(), vec![1, 2]);
    assert_eq!(pv.current_version(), 2);
}

#[test]
fn parsed_sections_are_trimmed_and_named() {
    let pv = PromptVersion::new("p", "P");
    let s = pv.parse_sections("  lead  \n##   Goal  \n\n  reach it \n## Empty\n \n");
    assert_eq!(s.len(), 2);
    assert_eq!(s.get("header"), Some(&"lead".to_string()));
    assert_eq!(s.get("Goal"), Some(&"reach it".to_string()));
    assert!(s.get("Empty").is_none());
}

#[test]
fn strict_compile_differs_only_on_unfilled_placeholders() {
    let build = || {
        PromptCompiler::new()
            .add_template(PromptTemplate::new("t", "T", "Hi {{name}}, {{mood}}"))
            .set_variable("name", "Ann")
    };
    assert!(matches!(build().compile(), Err(CompileError::TypeError(_))));
    assert!(matches!(build().strict().compile(), Err(CompileError::Validation(_))));
    let filled = || build().set_variable("mood", "glad");
    assert_eq!(filled().strict().compile().unwrap(), filled().compile().unwrap());
}

#[test]
fn pipelined_refuses_what_compile_truncates() {
    let build = || {
        PromptCompiler::new()
            .add_template(PromptTemplate::new("a", "A", "one two three four five"))
            .with_token_budget(TokenBudget::new(2))
    };
    assert_eq!(build().compile().unwrap(), "one two");
    assert!(matches!(
        build().compile_pipelined(),
        Err(CompileError::Composition(CompositionError::TokenBudgetExceeded { .. }))
    ));
}

#[test]
fn snapshots_restore_a_versioned_template() {
    let mut pv = PromptVersion::new("p", "P").with_initial_template("## A\nx");
    pv.commit("## A\ny");
    let snaps = pv.snapshots();
    assert_eq!(snaps.len(), 2);
    assert_eq!((snaps[1].0, snaps[1].1.as_str()), (2, "## A\ny"));
    assert_eq!(snaps[0].2.len(), 0);
    let back = PromptVersion::from_snapshots("p", "P", pv.current_version(), &snaps);
    assert_eq!(back.list_versions(), vec![1, 2]);
    assert_eq!(back.current_template(), Some("## A\ny"));
    let d = back.diff(1, 2).unwrap();
    assert_eq!(d.section_changes.get("A"), Some(&SectionChange::Changed { old: "x".into(), new: "y".into() }));
}

#[test]
fn snapshot_timestamps_are_rfc3339() {
    let pv = PromptVersion::new("p", "P").with_initial_template("x");
    let snaps = pv.snapshots();
    let ts = &snaps[0].3;
    assert!(ts.ends_with("+00:00"));
    assert_eq!(ts.as_bytes()[4], b'-');
    assert_eq!(ts.as_bytes()[10], b'T');
}

#[test]
fn clones_behave_like_the_originals() {
    let t = PromptTemplate::new("t", "T", "Hi {{n}}").with_variable(var("n", VariableType::String, Some("you")));
    let c = t.clone();
    assert_eq!(c.render(&StrMap::new()).unwrap(), t.render(&StrMap::new()).unwrap());
    let mut pv = PromptVersion::new("p", "P").with_initial_template("a");
    pv.commit("b");
    let copy = pv.clone();
    pv.rollback(1).unwrap();
    assert_eq!(copy.list_versions(), vec![1, 2]);
    assert_eq!(pv.list_versions(), vec![1]);
    let composer = PromptComposer::new().add_stage(t.clone());
    assert_eq!(composer.clone().stage_count(), 1);
    let d = copy.diff(1, 2).unwrap().clone();
    assert!(d.template_changed);
}

#[test]
fn sections_without_headings_form_the_header() {
    let pv = PromptVersion::new("p", "P");
    let s = pv.parse_sections("  hello\nworld  \n");
    assert_eq!(s.len(), 1);
    assert_eq!(s.get("header"), Some(&"hello\nworld".to_string()));
    assert_eq!(pv.parse_sections(" \n \n").len(), 0);
}

#[test]
fn validate_variables_agrees_with_render() {
    let t = PromptTemplate::new("t", "T", "{{a}} {{b}}")
        .with_variable(var("a", VariableType::String, None))
        .with_variable(var("b", VariableType::String, Some("d")));
    let values = StrMap::new();
    let errors = PromptValidator::new().validate_variables(&t, &values);
    assert_eq!(errors.len(), 1);
    assert!(matches!(t.render(&values), Err(RenderError::MissingVariable(ref v)) if v == "a"));
}

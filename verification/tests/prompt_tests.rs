use baml::ast::RawString;
use baml::diagnostics::Span;
use baml::prompt::{
    AdapterId, ChatBlock, PrinterBlock, PromptAst, PromptVariable, StringValue, Variable,
    VariantProperties,
};

fn span() -> Span {
    Span::new(0, 0, 0)
}

fn variable(text: &str) -> Variable {
    Variable { path: vec![text.to_string()], text: text.to_string(), span: span() }
}

fn chat(role: &str) -> ChatBlock {
    ChatBlock { role: role.to_string(), span: span() }
}

fn string_value(value: &str) -> StringValue {
    StringValue { value: value.to_string(), span: span(), key_span: span() }
}

fn properties(
    template: &str,
    inputs: Vec<(&str, &str)>,
    printers: Vec<(Option<&str>, &str, &str)>,
    chats: Vec<&str>,
) -> VariantProperties {
    VariantProperties {
        client: string_value("client"),
        prompt: string_value(template),
        prompt_replacements: vec![],
        replacers: (
            inputs.into_iter().map(|(k, v)| (variable(k), v.to_string())).collect(),
            printers
                .into_iter()
                .map(|(p, k, v)| {
                    (PrinterBlock { printer: p.map(|p| p.to_string()), target: variable(k) }, v.to_string())
                })
                .collect(),
            chats.into_iter().map(chat).collect(),
        ),
        input_adapter: None,
        output_adapter: None,
    }
}

fn pair(k: &str, v: &str) -> (String, String) {
    (k.to_string(), v.to_string())
}

#[test]
fn plain_prompt_replaces_input() {
    let p = properties("Hello {{input}}", vec![("{{input}}", "world")], vec![], vec![]);
    match p.to_prompt() {
        PromptAst::String(text, used) => {
            assert_eq!(text, "Hello world");
            assert_eq!(used, vec![pair("{{input}}", "world")]);
        }
        PromptAst::Chat(..) => panic!("expected a prompt in one piece"),
    }
}

#[test]
fn unused_inputs_are_dropped() {
    let p = properties(
        "Hello {{input}}",
        vec![("{{unused}}", "never"), ("{{input}}", "world")],
        vec![],
        vec![],
    );
    match p.to_prompt() {
        PromptAst::String(text, used) => {
            assert_eq!(text, "Hello world");
            assert_eq!(used, vec![pair("{{input}}", "world")]);
        }
        PromptAst::Chat(..) => panic!("expected a prompt in one piece"),
    }
}

#[test]
fn used_inputs_are_sorted_by_key() {
    let p = properties(
        "{{z}} {{a}} {{m}}",
        vec![("{{z}}", "1"), ("{{a}}", "2"), ("{{m}}", "3")],
        vec![],
        vec![],
    );
    match p.to_prompt() {
        PromptAst::String(text, used) => {
            assert_eq!(text, "1 2 3");
            assert_eq!(used, vec![pair("{{a}}", "2"), pair("{{m}}", "3"), pair("{{z}}", "1")]);
        }
        PromptAst::Chat(..) => panic!("expected a prompt in one piece"),
    }
}

#[test]
fn printers_are_replaced_unconditionally() {
    let p = properties(
        "Answer as {{out}} or {{out}}.",
        vec![],
        vec![(None, "{{out}}", "JSON"), (Some("p"), "{{missing}}", "never")],
        vec![],
    );
    match p.to_prompt() {
        PromptAst::String(text, used) => {
            assert_eq!(text, "Answer as JSON or JSON.");
            assert!(used.is_empty());
        }
        PromptAst::Chat(..) => panic!("expected a prompt in one piece"),
    }
}

#[test]
fn chat_prompt_drops_empty_leading_part() {
    let p = properties(
        "\n  system\nYou are helpful.\n user \n Hello {{input}} ",
        vec![("{{input}}", "there")],
        vec![],
        vec!["system", "user"],
    );
    match p.to_prompt() {
        PromptAst::Chat(parts, used) => {
            assert_eq!(parts.len(), 2);
            assert_eq!(parts[0].0.map(|c| c.role.as_str()), Some("system"));
            assert_eq!(parts[0].1, "You are helpful.");
            assert_eq!(parts[1].0.map(|c| c.role.as_str()), Some("user"));
            assert_eq!(parts[1].1, "Hello there");
            assert_eq!(used, vec![pair("{{input}}", "there")]);
        }
        PromptAst::String(..) => panic!("expected a prompt in parts"),
    }
}

#[test]
fn chat_prompt_keeps_leading_text() {
    let p = properties("Intro. system Be brief.", vec![], vec![], vec!["system"]);
    match p.to_prompt() {
        PromptAst::Chat(parts, _) => {
            assert_eq!(parts.len(), 2);
            assert!(parts[0].0.is_none());
            assert_eq!(parts[0].1, "Intro.");
            assert_eq!(parts[1].0.map(|c| c.role.as_str()), Some("system"));
            assert_eq!(parts[1].1, "Be brief.");
        }
        PromptAst::String(..) => panic!("expected a prompt in parts"),
    }
}

#[test]
fn chat_prompt_marker_at_start_and_repeated_roles() {
    let p = properties("user one assistant two user three", vec![], vec![], vec!["user", "assistant", "user"]);
    match p.to_prompt() {
        PromptAst::Chat(parts, _) => {
            let got: Vec<(Option<&str>, &str)> =
                parts.iter().map(|(c, t)| (c.map(|c| c.role.as_str()), t.as_str())).collect();
            assert_eq!(
                got,
                vec![(Some("user"), "one"), (Some("assistant"), "two"), (Some("user"), "three")]
            );
        }
        PromptAst::String(..) => panic!("expected a prompt in parts"),
    }
}

#[test]
fn chat_prompt_passes_over_a_marker_that_is_not_found_and_drops_empty_parts() {
    let p = properties("system  user hello", vec![], vec![], vec!["system", "tool", "user"]);
    match p.to_prompt() {
        PromptAst::Chat(parts, _) => {
            let got: Vec<(Option<&str>, &str)> =
                parts.iter().map(|(c, t)| (c.map(|c| c.role.as_str()), t.as_str())).collect();
            assert_eq!(got, vec![(Some("user"), "hello")]);
        }
        PromptAst::String(..) => panic!("expected a prompt in parts"),
    }
}

#[test]
fn chat_markers_that_cannot_be_located_give_no_prompt() {
    let p = properties("no roles here", vec![], vec![], vec!["system"]);
    assert!(p.try_to_prompt().is_none());
    let q = properties("system here", vec![], vec![], vec!["system"]);
    assert!(q.try_to_prompt().is_some());
}

#[test]
fn marker_keys() {
    assert_eq!(PromptVariable::Input(variable("{{input}}")).key(), "{{input}}");
    assert_eq!(PromptVariable::Chat(chat("system")).key(), "system");
    let named = PrinterBlock { printer: Some("short".to_string()), target: variable("Color") };
    assert_eq!(named.key(), "short.Color");
    let unnamed = PrinterBlock { printer: None, target: variable("Color") };
    assert_eq!(PromptVariable::Enum(unnamed).key(), "Color");
    let typed = PrinterBlock { printer: None, target: variable("Resume") };
    assert_eq!(PromptVariable::Type(typed).key(), "Resume");
}

#[test]
fn output_adapter_by_language() {
    let mut p = properties("x", vec![], vec![], vec![]);
    assert_eq!(p.output_adapter_for_language("python"), None);
    p.output_adapter = Some((
        AdapterId(0),
        vec![
            RawString { value: "plain".to_string(), language: None, span: span() },
            RawString { value: "ts one".to_string(), language: Some("typescript".to_string()), span: span() },
            RawString { value: "py one".to_string(), language: Some("python".to_string()), span: span() },
            RawString { value: "py two".to_string(), language: Some("python".to_string()), span: span() },
        ],
    ));
    assert_eq!(p.output_adapter_for_language("python"), Some("py one"));
    assert_eq!(p.output_adapter_for_language("typescript"), Some("ts one"));
    assert_eq!(p.output_adapter_for_language("ruby"), None);
}

#[test]
fn an_input_is_used_where_its_key_stands_in_the_template() {
    // `ab` stands in the template, though the replacement of `a` takes it away.
    let p = properties("ab", vec![("a", "x"), ("ab", "y")], vec![], vec![]);
    match p.to_prompt() {
        PromptAst::String(text, used) => {
            assert_eq!(text, "xb");
            assert_eq!(used, vec![pair("a", "x"), pair("ab", "y")]);
        }
        PromptAst::Chat(..) => panic!("expected a prompt in one piece"),
    }
    // the used inputs do not depend on the order of the table
    let p = properties("ab", vec![("ab", "y"), ("a", "x")], vec![], vec![]);
    match p.to_prompt() {
        PromptAst::String(text, used) => {
            assert_eq!(text, "y");
            assert_eq!(used, vec![pair("a", "x"), pair("ab", "y")]);
        }
        PromptAst::Chat(..) => panic!("expected a prompt in one piece"),
    }
}

#[test]
fn a_key_in_a_replacement_text_is_replaced_only_where_it_stands_in_the_template() {
    // `{b}` stands in the template: it is replaced in the text put in for `{a}` too.
    let p = properties("{a} {b}", vec![("{a}", "<{b}>"), ("{b}", "B")], vec![], vec![]);
    match p.to_prompt() {
        PromptAst::String(text, used) => {
            assert_eq!(text, "<B> B");
            assert_eq!(used, vec![pair("{a}", "<{b}>"), pair("{b}", "B")]);
        }
        PromptAst::Chat(..) => panic!("expected a prompt in one piece"),
    }
    // `{c}` does not stand in the template: it is left as the replacement put it.
    let p = properties("{a}", vec![("{a}", "<{c}>"), ("{c}", "C")], vec![], vec![]);
    match p.to_prompt() {
        PromptAst::String(text, used) => {
            assert_eq!(text, "<{c}>");
            assert_eq!(used, vec![pair("{a}", "<{c}>")]);
        }
        PromptAst::Chat(..) => panic!("expected a prompt in one piece"),
    }
}

use power_rename_gui::form::{RuleForm, RuleKind};
use power_rename_gui::mapping::NameMapping;
use power_rename_gui::rule::{CaseMode, NumberPos, Rule, Scope};
use power_rename_gui::rule_list::{EditorPane, RuleList};

fn mapping(pairs: &[(&str, &str)]) -> NameMapping {
    let mut m = NameMapping::new();
    for (a, b) in pairs {
        m.insert(a.to_string(), b.to_string());
    }
    m
}

fn number(pos: usize, start: &str, step: &str, digits: &str, sep: &str) -> RuleForm {
    RuleForm::Number {
        pos,
        start: start.to_string(),
        step: step.to_string(),
        digits: digits.to_string(),
        sep: sep.to_string(),
    }
}

fn prefix(text: &str) -> RuleForm {
    RuleForm::Prefix { text: text.to_string() }
}

#[test]
fn summaries_describe_each_kind() {
    let replace = |cs: bool| RuleForm::Replace {
        search: "a".to_string(),
        replace: "b".to_string(),
        case_sensitive: cs,
        scope: 1,
    };
    assert_eq!(replace(true).summary(), "替换 [a] → [b] (敏感)");
    assert_eq!(replace(false).summary(), "替换 [a] → [b] (忽略大小写)");
    let regex = RuleForm::Regex { pattern: "x+".to_string(), replace: "y".to_string(), scope: 0 };
    assert_eq!(regex.summary(), "正则 [x+] → [y]");
    for (mode, name) in [(0usize, "小写"), (1, "大写"), (2, "Title"), (3, "Capitalize"), (4, "小写")] {
        assert_eq!(RuleForm::Case { mode, scope: 0 }.summary(), format!("大小写转换（{name}）"));
    }
    assert_eq!(prefix("p").summary(), "添加前缀 [p]");
    assert_eq!(RuleForm::Suffix { text: "s".to_string() }.summary(), "添加后缀 [s]");
    assert_eq!(number(0, "1", "2", "3", "-").summary(), "序列编号（前缀 从 1 步 2 3位 分隔[-]）");
    assert_eq!(number(1, "1", "2", "3", "-").summary(), "序列编号（后缀 从 1 步 2 3位 分隔[-]）");
    assert_eq!(RuleForm::Ext { text: "md".to_string() }.summary(), "替换扩展名 [md]");
    assert_eq!(RuleForm::Strip { chars: "-_".to_string(), scope: 0 }.summary(), "移除字符 [-_]");
    assert_eq!(RuleForm::Trim { underscore: true }.summary(), "压缩空白（换下划线）");
    assert_eq!(RuleForm::Trim { underscore: false }.summary(), "压缩空白");
    let list = RuleForm::List { mapping: mapping(&[("a", "b"), ("c", "d"), ("a", "e")]) };
    assert_eq!(list.summary(), "清单 [2 条映射]");
}

#[test]
fn rules_take_over_the_fields() {
    let form = RuleForm::Replace {
        search: "a".to_string(),
        replace: "b".to_string(),
        case_sensitive: true,
        scope: 2,
    };
    assert_eq!(
        form.to_rule(),
        Rule::Replace {
            search: "a".to_string(),
            replace: "b".to_string(),
            case_sensitive: true,
            scope: Scope::Ext
        }
    );
    let form = RuleForm::Regex { pattern: "p".to_string(), replace: "r".to_string(), scope: 1 };
    assert_eq!(
        form.to_rule(),
        Rule::Regex { pattern: "p".to_string(), replace: "r".to_string(), scope: Scope::Stem }
    );
    let modes = [CaseMode::Lower, CaseMode::Upper, CaseMode::Title, CaseMode::Capitalize, CaseMode::Lower];
    for (mode, want) in modes.iter().enumerate() {
        assert_eq!(
            RuleForm::Case { mode, scope: 7 }.to_rule(),
            Rule::Case { mode: *want, scope: Scope::Full }
        );
    }
    assert_eq!(prefix("p").to_rule(), Rule::Prefix { text: "p".to_string() });
    assert_eq!(RuleForm::Suffix { text: "s".to_string() }.to_rule(), Rule::Suffix { text: "s".to_string() });
    assert_eq!(RuleForm::Ext { text: "e".to_string() }.to_rule(), Rule::Ext { text: "e".to_string() });
    assert_eq!(
        RuleForm::Strip { chars: "xy".to_string(), scope: 0 }.to_rule(),
        Rule::Strip { chars: "xy".to_string(), scope: Scope::Full }
    );
    assert_eq!(RuleForm::Trim { underscore: true }.to_rule(), Rule::Trim { underscore: true });
    assert_eq!(
        RuleForm::List { mapping: mapping(&[("b", "1"), ("a", "2")]) }.to_rule(),
        Rule::List { mapping: mapping(&[("a", "2"), ("b", "1")]) }
    );
}

#[test]
fn number_fields_are_trimmed_and_have_fallbacks() {
    let rule = number(0, " -5 ", "\t+10", "3\n", " ").to_rule();
    let want = Rule::Number { pos: NumberPos::Prefix, start: -5, step: 10, digits: 3, sep: " ".to_string() };
    assert_eq!(rule, want);
    let rule = number(2, "", "x", "-1", "").to_rule();
    let want = Rule::Number { pos: NumberPos::Suffix, start: 1, step: 1, digits: 2, sep: String::new() };
    assert_eq!(rule, want);
    let rule = number(1, "9223372036854775808", "1e3", "99999999999999999999", "_").to_rule();
    let want = Rule::Number { pos: NumberPos::Suffix, start: 1, step: 1, digits: 2, sep: "_".to_string() };
    assert_eq!(rule, want);
}

#[test]
fn scope_is_set_where_there_is_one() {
    let mut form = RuleForm::Case { mode: 1, scope: 0 };
    assert!(form.has_scope());
    form.set_scope(2);
    assert_eq!(form.scope(), 2);
    assert_eq!(form, RuleForm::Case { mode: 1, scope: 2 });
    let mut form = prefix("p");
    assert!(!form.has_scope());
    form.set_scope(2);
    assert_eq!(form.scope(), 0);
    assert_eq!(form, prefix("p"));
}

#[test]
fn blank_forms_have_the_menu_defaults() {
    assert_eq!(RuleForm::blank(RuleKind::Number), number(1, "1", "1", "2", " "));
    assert_eq!(RuleForm::blank(RuleKind::Ext), RuleForm::Ext { text: "txt".to_string() });
    assert_eq!(RuleForm::blank(RuleKind::Strip), RuleForm::Strip { chars: "-_".to_string(), scope: 0 });
    assert_eq!(RuleForm::blank(RuleKind::Trim), RuleForm::Trim { underscore: false });
    assert_eq!(RuleForm::blank(RuleKind::List), RuleForm::List { mapping: NameMapping::new() });
    assert_eq!(RuleForm::blank(RuleKind::Case), RuleForm::Case { mode: 0, scope: 0 });
    assert_eq!(RuleForm::blank(RuleKind::Prefix), prefix(""));
    assert_eq!(RuleForm::blank(RuleKind::Suffix), RuleForm::Suffix { text: String::new() });
    assert_eq!(
        RuleForm::blank(RuleKind::Regex),
        RuleForm::Regex { pattern: String::new(), replace: String::new(), scope: 0 }
    );
    assert_eq!(
        RuleForm::blank(RuleKind::Replace),
        RuleForm::Replace {
            search: String::new(),
            replace: String::new(),
            case_sensitive: false,
            scope: 0
        }
    );
}

#[test]
fn mapping_lists_names_in_order() {
    let m = mapping(&[("乙", "2"), ("b", "x"), ("a", "1"), ("B", "y"), ("a", "3"), ("ab", "z"), ("", "e")]);
    assert_eq!(m.len(), 6);
    assert!(!m.is_empty());
    assert!(NameMapping::new().is_empty());
    assert_eq!(m.lines(), vec!["  →  e", "B  →  y", "a  →  3", "ab  →  z", "b  →  x", "乙  →  2"]);
    let mut sorted = m.to_pairs();
    sorted.sort_by(|a, b| a.0.cmp(&b.0));
    assert_eq!(sorted, m.to_pairs());
    assert_eq!(m.clone(), m);
}

#[test]
fn the_order_of_insertion_does_not_show() {
    let a = mapping(&[("x", "1"), ("y", "2"), ("z", "3")]);
    let b = mapping(&[("z", "0"), ("y", "2"), ("x", "1"), ("z", "3")]);
    assert_eq!(a.lines(), b.lines());
    assert_eq!(a, b);
}

fn three() -> RuleList {
    let mut list = RuleList::new();
    list.push(prefix("0"));
    list.push(prefix("1"));
    list.push(prefix("2"));
    list
}

#[test]
fn moving_up_and_down_again_restores_the_list() {
    let mut list = three();
    assert_eq!(list.selected, Some(2));
    assert!(list.move_up());
    assert_eq!(list.forms, vec![prefix("0"), prefix("2"), prefix("1")]);
    assert_eq!(list.selected, Some(1));
    assert!(list.move_down());
    assert_eq!(list.forms, three().forms);
    assert_eq!(list.selected, Some(2));
    assert!(!list.move_down());
    list.select(0);
    assert!(!list.move_up());
    assert_eq!(list.forms, three().forms);
    list.selected = None;
    assert!(!list.move_up() && !list.move_down() && !list.remove_selected());
}

#[test]
fn removing_clears_the_choice() {
    let mut list = three();
    list.select(1);
    assert!(list.remove_selected());
    assert_eq!(list.forms, vec![prefix("0"), prefix("2")]);
    assert_eq!(list.selected, None);
    list.push(prefix("3"));
    assert!(list.remove_selected());
    assert_eq!(list.forms, vec![prefix("0"), prefix("2")]);
    assert!(list.clear());
    assert!(list.forms.is_empty());
    assert!(!list.clear());
}

#[test]
fn the_editor_follows_the_choice() {
    let mut list = RuleList::new();
    assert_eq!(list.pane(), EditorPane::Placeholder);
    list.push(prefix("0"));
    assert_eq!(list.pane(), EditorPane::Form(0));
    list.selected = None;
    assert_eq!(list.pane(), EditorPane::Advice);
    list.selected = Some(4);
    assert_eq!(list.pane(), EditorPane::Blank);
}

#[test]
fn rules_keep_their_order() {
    let rules = three().to_rules();
    assert_eq!(rules.len(), 3);
    assert_eq!(rules[2], Rule::Prefix { text: "2".to_string() });
}

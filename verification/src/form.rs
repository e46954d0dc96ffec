//! The editable forms of the renaming rules.
use crate::mapping::NameMapping;
use crate::rule::{CaseMode, NumberPos, Rule, Scope};
use crate::text::{parse_i64, parse_usize, push_decimal, trim};
use vstd::prelude::*;

verus! {

/// A rule as the user edits it: numbers are still text, choices are still list positions.
#[derive(Debug, Clone, PartialEq)]
pub enum RuleForm {
    Replace { search: String, replace: String, case_sensitive: bool, scope: usize },
    Regex { pattern: String, replace: String, scope: usize },
    Case { mode: usize, scope: usize },
    Prefix { text: String },
    Suffix { text: String },
    Number { pos: usize, start: String, step: String, digits: String, sep: String },
    Ext { text: String },
    Strip { chars: String, scope: usize },
    Trim { underscore: bool },
    List { mapping: NameMapping },
}

/// The kinds of rule that the menu offers.
#[derive(Debug, Clone, Copy, PartialEq, Eq, Structural)]
pub enum RuleKind {
    Replace,
    Regex,
    Case,
    Prefix,
    Suffix,
    Number,
    Ext,
    Strip,
    Trim,
    List,
}

/// The name under which a case mode is listed. Positions off the list count as the first.
pub open spec fn case_name(mode: usize) -> Seq<char> {
    if mode == 1 {
        "大写"@
    } else if mode == 2 {
        "Title"@
    } else if mode == 3 {
        "Capitalize"@
    } else {
        "小写"@
    }
}

/// The line that describes a form in the rule list.
pub open spec fn summary_text(form: RuleForm) -> Seq<char> {
    match form {
        RuleForm::Replace { search, replace, case_sensitive, .. } => {
            "替换 ["@ + search@ + "] → ["@ + replace@ + "] ("@ + (if case_sensitive {
                "敏感"@
            } else {
                "忽略大小写"@
            }) + ")"@
        },
        RuleForm::Regex { pattern, replace, .. } => {
            "正则 ["@ + pattern@ + "] → ["@ + replace@ + "]"@
        },
        RuleForm::Case { mode, .. } => { "大小写转换（"@ + case_name(mode) + "）"@ },
        RuleForm::Prefix { text } => { "添加前缀 ["@ + text@ + "]"@ },
        RuleForm::Suffix { text } => { "添加后缀 ["@ + text@ + "]"@ },
        RuleForm::Number { pos, start, step, digits, sep } => {
            "序列编号（"@ + (if pos == 0 {
                "前缀"@
            } else {
                "后缀"@
            }) + " 从 "@ + start@ + " 步 "@ + step@ + " "@ + digits@ + "位 分隔["@ + sep@
                + "]）"@
        },
        RuleForm::Ext { text } => { "替换扩展名 ["@ + text@ + "]"@ },
        RuleForm::Strip { chars, .. } => { "移除字符 ["@ + chars@ + "]"@ },
        RuleForm::Trim { underscore } => {
            if underscore {
                "压缩空白（换下划线）"@
            } else {
                "压缩空白"@
            }
        },
        RuleForm::List { mapping } => {
            "清单 ["@ + crate::text::decimal(mapping@.len()) + " 条映射]"@
        },
    }
}

/// The scope at a list position. Positions off the list count as the first.
pub open spec fn scope_at(position: usize) -> Scope {
    if position == 1 {
        Scope::Stem
    } else if position == 2 {
        Scope::Ext
    } else {
        Scope::Full
    }
}

/// The case mode at a list position. Positions off the list count as the first.
pub open spec fn case_at(position: usize) -> CaseMode {
    if position == 1 {
        CaseMode::Upper
    } else if position == 2 {
        CaseMode::Title
    } else if position == 3 {
        CaseMode::Capitalize
    } else {
        CaseMode::Lower
    }
}

/// The number in a signed field, or `fallback` where the field holds no number in range.
pub open spec fn signed_field(field: Seq<char>, fallback: i64) -> i64 {
    match crate::text::signed_number(crate::text::trimmed(field)) {
        Some(n) => if i64::MIN <= n <= i64::MAX {
            n as i64
        } else {
            fallback
        },
        None => fallback,
    }
}

/// The number in an unsigned field, or `fallback` where the field holds no number in range.
pub open spec fn count_field(field: Seq<char>, fallback: usize) -> usize {
    match crate::text::unsigned_number(crate::text::trimmed(field)) {
        Some(n) => if n <= usize::MAX {
            n as usize
        } else {
            fallback
        },
        None => fallback,
    }
}

/// Whether `rule` is what `form` describes.
pub open spec fn describes(form: RuleForm, rule: Rule) -> bool {
    match form {
        RuleForm::Replace { search, replace, case_sensitive, scope } => {
            rule == (Rule::Replace { search, replace, case_sensitive, scope: scope_at(scope) })
        },
        RuleForm::Regex { pattern, replace, scope } => {
            rule == (Rule::Regex { pattern, replace, scope: scope_at(scope) })
        },
        RuleForm::Case { mode, scope } => {
            rule == (Rule::Case { mode: case_at(mode), scope: scope_at(scope) })
        },
        RuleForm::Prefix { text } => rule == (Rule::Prefix { text }),
        RuleForm::Suffix { text } => rule == (Rule::Suffix { text }),
        RuleForm::Number { pos, start, step, digits, sep } => {
            rule == (Rule::Number {
                pos: if pos == 0 {
                    NumberPos::Prefix
                } else {
                    NumberPos::Suffix
                },
                start: signed_field(start@, 1),
                step: signed_field(step@, 1),
                digits: count_field(digits@, 2),
                sep,
            })
        },
        RuleForm::Ext { text } => rule == (Rule::Ext { text }),
        RuleForm::Strip { chars, scope } => {
            rule == (Rule::Strip { chars, scope: scope_at(scope) })
        },
        RuleForm::Trim { underscore } => rule == (Rule::Trim { underscore }),
        RuleForm::List { mapping } => rule matches Rule::List { mapping: m } && m@ == mapping@,
    }
}

/// Whether a form lets the user choose the scope.
pub open spec fn scoped(form: RuleForm) -> bool {
    form is Replace || form is Regex || form is Case || form is Strip
}

/// The list position of the scope of a form; forms without a scope count as the first.
pub open spec fn scope_position(form: RuleForm) -> usize {
    match form {
        RuleForm::Replace { scope, .. } => scope,
        RuleForm::Regex { scope, .. } => scope,
        RuleForm::Case { scope, .. } => scope,
        RuleForm::Strip { scope, .. } => scope,
        _ => 0,
    }
}

/// The form with the scope at list position `s`; forms without a scope stay as they are.
pub open spec fn with_scope(form: RuleForm, s: usize) -> RuleForm {
    match form {
        RuleForm::Replace { search, replace, case_sensitive, .. } => RuleForm::Replace {
            search,
            replace,
            case_sensitive,
            scope: s,
        },
        RuleForm::Regex { pattern, replace, .. } => RuleForm::Regex { pattern, replace, scope: s },
        RuleForm::Case { mode, .. } => RuleForm::Case { mode, scope: s },
        RuleForm::Strip { chars, .. } => RuleForm::Strip { chars, scope: s },
        other => other,
    }
}

/// Whether `form` is the form that the menu creates for `kind`.
pub open spec fn is_blank(form: RuleForm, kind: RuleKind) -> bool {
    match kind {
        RuleKind::Replace => form matches RuleForm::Replace {
            search,
            replace,
            case_sensitive,
            scope,
        } && search@.len() == 0 && replace@.len() == 0 && !case_sensitive && scope == 0,
        RuleKind::Regex => form matches RuleForm::Regex { pattern, replace, scope }
            && pattern@.len() == 0 && replace@.len() == 0 && scope == 0,
        RuleKind::Case => form == (RuleForm::Case { mode: 0, scope: 0 }),
        RuleKind::Prefix => form matches RuleForm::Prefix { text } && text@.len() == 0,
        RuleKind::Suffix => form matches RuleForm::Suffix { text } && text@.len() == 0,
        RuleKind::Number => form matches RuleForm::Number { pos, start, step, digits, sep } && pos
            == 1 && start@ == "1"@ && step@ == "1"@ && digits@ == "2"@ && sep@ == " "@,
        RuleKind::Ext => form matches RuleForm::Ext { text } && text@ == "txt"@,
        RuleKind::Strip => form matches RuleForm::Strip { chars, scope } && chars@ == "-_"@
            && scope == 0,
        RuleKind::Trim => form == (RuleForm::Trim { underscore: false }),
        RuleKind::List => form matches RuleForm::List { mapping } && mapping@ == Map::<
            Seq<char>,
            Seq<char>,
        >::empty(),
    }
}

/// Reads a signed field.
fn read_signed(field: &str, fallback: i64) -> (r: i64)
    ensures
        r == signed_field(field@, fallback),
{
    match parse_i64(trim(field).as_str()) {
        Some(n) => n,
        None => fallback,
    }
}

/// Reads an unsigned field.
fn read_count(field: &str, fallback: usize) -> (r: usize)
    ensures
        r == count_field(field@, fallback),
{
    match parse_usize(trim(field).as_str()) {
        Some(n) => n,
        None => fallback,
    }
}

impl RuleForm {
    /// The line that describes this form in the rule list.
    pub fn summary(&self) -> (r: String)
        ensures
            r@ == summary_text(*self),
    {
        match self {
            RuleForm::Replace { search, replace, case_sensitive, .. } => {
                let mut r = "替换 [".to_owned();
                r.append(search.as_str());
                r.append("] → [");
                r.append(replace.as_str());
                r.append("] (");
                r.append(
                    if *case_sensitive {
                        "敏感"
                    } else {
                        "忽略大小写"
                    },
                );
                r.append(")");
                r
            },
            RuleForm::Regex { pattern, replace, .. } => {
                let mut r = "正则 [".to_owned();
                r.append(pattern.as_str());
                r.append("] → [");
                r.append(replace.as_str());
                r.append("]");
                r
            },
            RuleForm::Case { mode, .. } => {
                let mut r = "大小写转换（".to_owned();
                r.append(
                    match *mode {
                        1 => "大写",
                        2 => "Title",
                        3 => "Capitalize",
                        _ => "小写",
                    },
                );
                r.append("）");
                r
            },
            RuleForm::Prefix { text } => {
                let mut r = "添加前缀 [".to_owned();
                r.append(text.as_str());
                r.append("]");
                r
            },
            RuleForm::Suffix { text } => {
                let mut r = "添加后缀 [".to_owned();
                r.append(text.as_str());
                r.append("]");
                r
            },
            RuleForm::Number { pos, start, step, digits, sep } => {
                let mut r = "序列编号（".to_owned();
                r.append(
                    if *pos == 0 {
                        "前缀"
                    } else {
                        "后缀"
                    },
                );
                r.append(" 从 ");
                r.append(start.as_str());
                r.append(" 步 ");
                r.append(step.as_str());
                r.append(" ");
                r.append(digits.as_str());
                r.append("位 分隔[");
                r.append(sep.as_str());
                r.append("]）");
                r
            },
            RuleForm::Ext { text } => {
                let mut r = "替换扩展名 [".to_owned();
                r.append(text.as_str());
                r.append("]");
                r
            },
            RuleForm::Strip { chars, .. } => {
                let mut r = "移除字符 [".to_owned();
                r.append(chars.as_str());
                r.append("]");
                r
            },
            RuleForm::Trim { underscore } => {
                if *underscore {
                    "压缩空白（换下划线）".to_owned()
                } else {
                    "压缩空白".to_owned()
                }
            },
            RuleForm::List { mapping } => {
                let mut r = "清单 [".to_owned();
                push_decimal(&mut r, mapping.len());
                r.append(" 条映射]");
                r
            },
        }
    }

    /// The engine rule that this form describes. Number fields are trimmed; a field that holds no
    /// number gives 1 for start and step and 2 for the digits.
    pub fn to_rule(&self) -> (r: Rule)
        ensures
            describes(*self, r),
    {
        let scope = match self.scope() {
            1 => Scope::Stem,
            2 => Scope::Ext,
            _ => Scope::Full,
        };
        match self {
            RuleForm::Replace { search, replace, case_sensitive, .. } => Rule::Replace {
                search: search.clone(),
                replace: replace.clone(),
                case_sensitive: *case_sensitive,
                scope,
            },
            RuleForm::Regex { pattern, replace, .. } => Rule::Regex {
                pattern: pattern.clone(),
                replace: replace.clone(),
                scope,
            },
            RuleForm::Case { mode, .. } => Rule::Case {
                mode: match *mode {
                    1 => CaseMode::Upper,
                    2 => CaseMode::Title,
                    3 => CaseMode::Capitalize,
                    _ => CaseMode::Lower,
                },
                scope,
            },
            RuleForm::Prefix { text } => Rule::Prefix { text: text.clone() },
            RuleForm::Suffix { text } => Rule::Suffix { text: text.clone() },
            RuleForm::Number { pos, start, step, digits, sep } => Rule::Number {
                pos: if *pos == 0 {
                    NumberPos::Prefix
                } else {
                    NumberPos::Suffix
                },
                start: read_signed(start.as_str(), 1),
                step: read_signed(step.as_str(), 1),
                digits: read_count(digits.as_str(), 2),
                sep: sep.clone(),
            },
            RuleForm::Ext { text } => Rule::Ext { text: text.clone() },
            RuleForm::Strip { chars, .. } => Rule::Strip { chars: chars.clone(), scope },
            RuleForm::Trim { underscore } => Rule::Trim { underscore: *underscore },
            RuleForm::List { mapping } => Rule::List { mapping: mapping.clone() },
        }
    }

    /// The list position of the scope.
    pub fn scope(&self) -> (r: usize)
        ensures
            r == scope_position(*self),
    {
        match self {
            RuleForm::Replace { scope, .. } => *scope,
            RuleForm::Regex { scope, .. } => *scope,
            RuleForm::Case { scope, .. } => *scope,
            RuleForm::Strip { scope, .. } => *scope,
            _ => 0,
        }
    }

    /// Moves the scope to list position `s`.
    pub fn set_scope(&mut self, s: usize)
        ensures
            *final(self) == with_scope(*old(self), s),
    {
        match self {
            RuleForm::Replace { scope, .. } => {
                *scope = s;
            },
            RuleForm::Regex { scope, .. } => {
                *scope = s;
            },
            RuleForm::Case { scope, .. } => {
                *scope = s;
            },
            RuleForm::Strip { scope, .. } => {
                *scope = s;
            },
            _ => {},
        }
    }

    /// Whether this form lets the user choose the scope.
    pub fn has_scope(&self) -> (r: bool)
        ensures
            r == scoped(*self),
    {
        match self {
            RuleForm::Replace { .. } => true,
            RuleForm::Regex { .. } => true,
            RuleForm::Case { .. } => true,
            RuleForm::Strip { .. } => true,
            _ => false,
        }
    }

    /// The form that the menu creates for `kind`.
    pub fn blank(kind: RuleKind) -> (r: Self)
        ensures
            is_blank(r, kind),
    {
        match kind {
            RuleKind::Replace => RuleForm::Replace {
                search: String::new(),
                replace: String::new(),
                case_sensitive: false,
                scope: 0,
            },
            RuleKind::Regex => RuleForm::Regex {
                pattern: String::new(),
                replace: String::new(),
                scope: 0,
            },
            RuleKind::Case => RuleForm::Case { mode: 0, scope: 0 },
            RuleKind::Prefix => RuleForm::Prefix { text: String::new() },
            RuleKind::Suffix => RuleForm::Suffix { text: String::new() },
            RuleKind::Number => RuleForm::Number {
                pos: 1,
                start: "1".to_owned(),
                step: "1".to_owned(),
                digits: "2".to_owned(),
                sep: " ".to_owned(),
            },
            RuleKind::Ext => RuleForm::Ext { text: "txt".to_owned() },
            RuleKind::Strip => RuleForm::Strip { chars: "-_".to_owned(), scope: 0 },
            RuleKind::Trim => RuleForm::Trim { underscore: false },
            RuleKind::List => RuleForm::List { mapping: NameMapping::new() },
        }
    }
}

/// Choosing a scope is seen by whoever asks for it, leaves the description of the rule as it was,
/// and the last choice wins; forms without a scope are not touched.
pub proof fn scope_choice(form: RuleForm, s: usize, t: usize)
    ensures
        scoped(form) ==> scope_position(with_scope(form, s)) == s,
        !scoped(form) ==> with_scope(form, s) == form,
        scoped(with_scope(form, s)) == scoped(form),
        with_scope(with_scope(form, s), t) == with_scope(form, t),
        with_scope(form, scope_position(form)) == form,
        summary_text(with_scope(form, s)) == summary_text(form),
{
}

/// A number field with a numeral in it is read as that number, whatever white space surrounds the
/// numeral.
pub proof fn padded_numeral_is_read(n: nat, before: Seq<char>, after: Seq<char>)
    requires
        forall|i: int| 0 <= i < before.len() ==> crate::text::white(#[trigger] before[i]),
        forall|i: int| 0 <= i < after.len() ==> crate::text::white(#[trigger] after[i]),
    ensures
        n <= i64::MAX ==> forall|fallback: i64|
            #[trigger] signed_field(before + crate::text::decimal(n) + after, fallback) == n,
        n <= usize::MAX ==> forall|fallback: usize|
            #[trigger] count_field(before + crate::text::decimal(n) + after, fallback) == n,
{
    crate::text::numeral_reads_back(n);
    crate::text::padding_is_trimmed(before, crate::text::decimal(n), after);
}

/// The rule of a form is of the form's kind and takes over each field as it is set: texts and
/// switches unchanged, the scope and the case mode by their list positions, the side of the number
/// by its position.
pub proof fn rule_takes_over_every_field(form: RuleForm, rule: Rule)
    requires
        describes(form, rule),
    ensures
        form matches RuleForm::Replace { search, replace, case_sensitive, scope } ==> {
            &&& rule matches Rule::Replace { search: s, replace: r, case_sensitive: c, scope: p }
            &&& s == search
            &&& r == replace
            &&& c == case_sensitive
            &&& p is Stem <==> scope == 1
            &&& p is Ext <==> scope == 2
        },
        form matches RuleForm::Regex { pattern, replace, scope } ==> {
            &&& rule matches Rule::Regex { pattern: s, replace: r, scope: p }
            &&& s == pattern
            &&& r == replace
            &&& p is Stem <==> scope == 1
            &&& p is Ext <==> scope == 2
        },
        form matches RuleForm::Case { mode, scope } ==> {
            &&& rule matches Rule::Case { mode: m, scope: p }
            &&& m is Upper <==> mode == 1
            &&& m is Title <==> mode == 2
            &&& m is Capitalize <==> mode == 3
            &&& p is Stem <==> scope == 1
            &&& p is Ext <==> scope == 2
        },
        form matches RuleForm::Prefix { text } ==> rule matches Rule::Prefix { text: t } && t
            == text,
        form matches RuleForm::Suffix { text } ==> rule matches Rule::Suffix { text: t } && t
            == text,
        form matches RuleForm::Ext { text } ==> rule matches Rule::Ext { text: t } && t == text,
        form matches RuleForm::Strip { chars, scope } ==> {
            &&& rule matches Rule::Strip { chars: c, scope: p }
            &&& c == chars
            &&& p is Stem <==> scope == 1
            &&& p is Ext <==> scope == 2
        },
        form matches RuleForm::Trim { underscore } ==> rule matches Rule::Trim { underscore: u }
            && u == underscore,
        form matches RuleForm::List { mapping } ==> rule matches Rule::List { mapping: m } && m@
            == mapping@,
        form matches RuleForm::Number { pos, sep, .. } ==> {
            &&& rule matches Rule::Number { pos: p, sep: s, .. }
            &&& p is Prefix <==> pos == 0
            &&& s == sep
        },
{
}

/// Two forms for replacing text that differ in minding case give rules that differ in it, and so for
/// the underscores of two forms for squeezing white space.
pub proof fn switches_reach_the_rule(a: RuleForm, b: RuleForm, of_a: Rule, of_b: Rule)
    requires
        describes(a, of_a),
        describes(b, of_b),
    ensures
        a is Replace && b is Replace ==> {
            &&& of_a is Replace && of_b is Replace
            &&& of_a->Replace_case_sensitive == of_b->Replace_case_sensitive
                <==> a->Replace_case_sensitive == b->Replace_case_sensitive
        },
        a is Trim && b is Trim ==> {
            &&& of_a is Trim && of_b is Trim
            &&& of_a->Trim_underscore == of_b->Trim_underscore <==> a->Trim_underscore
                == b->Trim_underscore
        },
{
}

/// The numeral of `n` behind a sign, or behind none.
pub open spec fn signed_numeral(minus: bool, plus: bool, n: nat) -> Seq<char> {
    (if minus {
        seq!['-']
    } else if plus {
        seq!['+']
    } else {
        Seq::empty()
    }) + crate::text::decimal(n)
}

/// A sign before a numeral and white space around both are read as one expects: the number in the
/// rule is the number written, as far as it is in range.
pub proof fn written_numbers_reach_the_rule(
    form: RuleForm,
    rule: Rule,
    minus: bool,
    plus: bool,
    n: nat,
    before: Seq<char>,
    after: Seq<char>,
)
    requires
        describes(form, rule),
        form is Number,
        forall|i: int| 0 <= i < before.len() ==> crate::text::white(#[trigger] before[i]),
        forall|i: int| 0 <= i < after.len() ==> crate::text::white(#[trigger] after[i]),
    ensures
        rule is Number,
        ({
            let written = before + signed_numeral(minus, plus, n) + after;
            let number = if minus {
                -(n as int)
            } else {
                n as int
            };
            let in_range = i64::MIN <= number <= i64::MAX;
            &&& form->Number_start@ == written ==> rule->Number_start == (if in_range {
                number
            } else {
                1
            })
            &&& form->Number_step@ == written ==> rule->Number_step == (if in_range {
                number
            } else {
                1
            })
            &&& form->Number_digits@ == written ==> rule->Number_digits == (if !minus && n
                <= usize::MAX {
                n as int
            } else {
                2
            })
        }),
{
    let digits = crate::text::decimal(n);
    let core = signed_numeral(minus, plus, n);
    crate::text::numeral_reads_back(n);
    crate::text::numerals_are_decimal(n);
    crate::text::numbers_are_read_by_sign_and_place(digits, '0');
    assert('0' <= digits[0] <= '9');
    assert('0' <= digits[digits.len() - 1] <= '9');
    assert(core.last() == digits.last());
    if !minus && !plus {
        assert(core =~= digits);
    }
    assert(!crate::text::white(core[0]) && !crate::text::white(core.last()));
    crate::text::white_around_is_trimmed(before, core, after);
    if minus {
        assert(core[0] == '-');
        assert(core.drop_first() =~= digits);
        assert(!('0' <= core[0] <= '9'));
        assert(crate::text::unsigned_number(core) is None);
    }
}

/// A number field that holds no number gives 1 for the start and the step and 2 for the digits.
pub proof fn unreadable_numbers_have_fallbacks(form: RuleForm, rule: Rule)
    requires
        describes(form, rule),
        form is Number,
    ensures
        rule is Number,
        crate::text::signed_number(crate::text::trimmed(form->Number_start@)) is None
            ==> rule->Number_start == 1,
        crate::text::signed_number(crate::text::trimmed(form->Number_step@)) is None
            ==> rule->Number_step == 1,
        crate::text::unsigned_number(crate::text::trimmed(form->Number_digits@)) is None
            ==> rule->Number_digits == 2,
{
}

/// Choosing another scope changes the scope of the rule and nothing else of it, and only forms that
/// offer a scope are changed at all.
pub proof fn scope_choice_reaches_the_rule(form: RuleForm, s: usize, rule: Rule, moved: Rule)
    requires
        describes(form, rule),
        describes(with_scope(form, s), moved),
    ensures
        form is Replace ==> {
            &&& rule is Replace && moved is Replace
            &&& moved->Replace_search == rule->Replace_search
            &&& moved->Replace_replace == rule->Replace_replace
            &&& moved->Replace_case_sensitive == rule->Replace_case_sensitive
            &&& moved->Replace_scope is Stem <==> s == 1
            &&& moved->Replace_scope is Ext <==> s == 2
        },
        form is Regex ==> {
            &&& rule is Regex && moved is Regex
            &&& moved->Regex_pattern == rule->Regex_pattern
            &&& moved->Regex_replace == rule->Regex_replace
            &&& moved->Regex_scope is Stem <==> s == 1
            &&& moved->Regex_scope is Ext <==> s == 2
        },
        form is Case ==> {
            &&& rule is Case && moved is Case
            &&& moved->Case_mode == rule->Case_mode
            &&& moved->Case_scope is Stem <==> s == 1
            &&& moved->Case_scope is Ext <==> s == 2
        },
        form is Strip ==> {
            &&& rule is Strip && moved is Strip
            &&& moved->Strip_chars == rule->Strip_chars
            &&& moved->Strip_scope is Stem <==> s == 1
            &&& moved->Strip_scope is Ext <==> s == 2
        },
        form is Prefix || form is Suffix || form is Number || form is Ext || form is Trim ==> moved
            == rule,
        scoped(form) <==> form is Replace || form is Regex || form is Case || form is Strip,
{
}

/// Whether `text` holds `part`.
pub open spec fn holds(text: Seq<char>, part: Seq<char>) -> bool {
    exists|a: Seq<char>, b: Seq<char>| text == #[trigger] (a + part + b)
}

/// Whether `text` holds `first` and, behind it, `second`.
pub open spec fn holds_both(text: Seq<char>, first: Seq<char>, second: Seq<char>) -> bool {
    exists|a: Seq<char>, b: Seq<char>, c: Seq<char>|
        text == #[trigger] (a + first + b + second + c)
}

/// The line of a form names what the form holds: the texts in it, whether it minds case, the number
/// of mapped names.
pub proof fn summary_names_the_fields(form: RuleForm)
    ensures
        form matches RuleForm::Replace { search, replace, case_sensitive, .. } ==> {
            &&& holds_both(summary_text(form), search@, replace@)
            &&& holds_both(
                summary_text(form),
                replace@,
                if case_sensitive {
                    "敏感"@
                } else {
                    "忽略大小写"@
                },
            )
        },
        form matches RuleForm::Regex { pattern, replace, .. } ==> holds_both(
            summary_text(form),
            pattern@,
            replace@,
        ),
        form matches RuleForm::Prefix { text } ==> holds(summary_text(form), text@),
        form matches RuleForm::Suffix { text } ==> holds(summary_text(form), text@),
        form matches RuleForm::Ext { text } ==> holds(summary_text(form), text@),
        form matches RuleForm::Strip { chars, .. } ==> holds(summary_text(form), chars@),
        form matches RuleForm::Number { start, step, digits, sep, .. } ==> {
            &&& holds_both(summary_text(form), " 从 "@ + start@, " 步 "@ + step@)
            &&& holds_both(summary_text(form), digits@ + "位"@, sep@)
        },
        form matches RuleForm::List { mapping } ==> holds(
            summary_text(form),
            crate::text::decimal(mapping@.len()),
        ),
{
    let text = summary_text(form);
    match form {
        RuleForm::Replace { search, replace, case_sensitive, .. } => {
            let word = if case_sensitive {
                "敏感"@
            } else {
                "忽略大小写"@
            };
            let c = "] ("@ + word + ")"@;
            assert(text =~= "替换 ["@ + search@ + "] → ["@ + replace@ + c);
            let a = "替换 ["@ + search@ + "] → ["@;
            assert(text =~= a + replace@ + "] ("@ + word + ")"@);
        },
        RuleForm::Regex { pattern, replace, .. } => {
            assert(text =~= "正则 ["@ + pattern@ + "] → ["@ + replace@ + "]"@);
        },
        RuleForm::Prefix { text: t } => {
            assert(text =~= "添加前缀 ["@ + t@ + "]"@);
        },
        RuleForm::Suffix { text: t } => {
            assert(text =~= "添加后缀 ["@ + t@ + "]"@);
        },
        RuleForm::Ext { text: t } => {
            assert(text =~= "替换扩展名 ["@ + t@ + "]"@);
        },
        RuleForm::Strip { chars, .. } => {
            assert(text =~= "移除字符 ["@ + chars@ + "]"@);
        },
        RuleForm::Number { pos, start, step, digits, sep } => {
            let side = if pos == 0 {
                "前缀"@
            } else {
                "后缀"@
            };
            reveal_strlit("位");
            reveal_strlit("位 分隔[");
            reveal_strlit(" 分隔[");
            assert("位 分隔["@ =~= "位"@ + " 分隔["@);
            let head = "序列编号（"@ + side;
            let tail = " "@ + digits@ + "位 分隔["@ + sep@ + "]）"@;
            assert(text =~= head + (" 从 "@ + start@) + Seq::<char>::empty() + (" 步 "@ + step@)
                + tail);
            let front = head + " 从 "@ + start@ + " 步 "@ + step@ + " "@;
            assert(text =~= front + (digits@ + "位"@) + " 分隔["@ + sep@ + "]）"@);
        },
        RuleForm::List { mapping } => {
            assert(text =~= "清单 ["@ + crate::text::decimal(mapping@.len()) + " 条映射]"@);
        },
        _ => {},
    }
}

/// The line of a form for changing case names the mode that its rule has, that of a form for numbers
/// the side: two forms have the same line only where their rules agree in it. Whether case is minded
/// and whether underscores are put shows in the line as well.
pub proof fn summary_tells_rules_apart(a: RuleForm, b: RuleForm, of_a: Rule, of_b: Rule)
    requires
        describes(a, of_a),
        describes(b, of_b),
    ensures
        a is Case && b is Case ==> (summary_text(a) == summary_text(b) <==> of_a->Case_mode
            == of_b->Case_mode),
        a is Trim && b is Trim ==> (summary_text(a) == summary_text(b) <==> of_a->Trim_underscore
            == of_b->Trim_underscore),
        a is Number && b is Number && summary_text(a) == summary_text(b) ==> of_a->Number_pos
            == of_b->Number_pos,
{
    reveal_strlit("大写");
    reveal_strlit("小写");
    reveal_strlit("Title");
    reveal_strlit("Capitalize");
    reveal_strlit("压缩空白（换下划线）");
    reveal_strlit("压缩空白");
    reveal_strlit("序列编号（");
    reveal_strlit("前缀");
    reveal_strlit("后缀");
    assert("压缩空白（换下划线）"@.len() != "压缩空白"@.len());
    if a is Case && b is Case {
        let n = "大小写转换（"@.len() as int;
        let x = case_name(a->Case_mode);
        let y = case_name(b->Case_mode);
        assert(summary_text(a).subrange(n, n + x.len()) =~= x);
        assert(summary_text(b).subrange(n, n + y.len()) =~= y);
        if summary_text(a) == summary_text(b) {
            assert(summary_text(a).len() == summary_text(b).len());
            assert(x == y);
            assert(x.len() == y.len());
            assert(x[0] == y[0]);
        }
    }
    if a is Number && b is Number && summary_text(a) == summary_text(b) {
        assert(summary_text(a)[5] == summary_text(b)[5]);
    }
}

/// The scope of a form is the one in its field, and the first where the form has none.
pub proof fn scope_is_that_of_the_field(form: RuleForm)
    ensures
        form is Replace ==> scope_position(form) == form->Replace_scope,
        form is Regex ==> scope_position(form) == form->Regex_scope,
        form is Case ==> scope_position(form) == form->Case_scope,
        form is Strip ==> scope_position(form) == form->Strip_scope,
        form is Prefix || form is Suffix || form is Number || form is Ext || form is Trim
            || form is List ==> scope_position(form) == 0,
{
}

} // verus!

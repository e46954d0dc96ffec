//! The list of rules and the choice in it.
use crate::form::RuleForm;
use crate::mapping::NameMapping;
use crate::rule::Rule;
use vstd::prelude::*;

verus! {

/// The rules in the order in which they are applied, and which of them is chosen for editing.
#[derive(Debug)]
pub struct RuleList {
    pub forms: Vec<RuleForm>,
    pub selected: Option<usize>,
}

/// What a list of rules holds.
#[verifier::ext_equal]
pub struct RuleListView {
    pub forms: Seq<RuleForm>,
    pub selected: Option<usize>,
}

impl View for RuleList {
    type V = RuleListView;

    open spec fn view(&self) -> RuleListView {
        RuleListView { forms: self.forms@, selected: self.selected }
    }
}

impl RuleListView {
    /// Whether the choice, where there is one, is a rule of the list.
    pub open spec fn in_range(self) -> bool {
        self.selected matches Some(i) ==> i < self.forms.len()
    }

    /// The list with `form` behind the others and chosen.
    pub open spec fn with(self, form: RuleForm) -> RuleListView {
        RuleListView { forms: self.forms.push(form), selected: Some(self.forms.len() as usize) }
    }

    /// The list with `mapping` as a rename list, chosen: in place of the newest rename list, or
    /// behind the others where there is none.
    pub open spec fn with_list(self, mapping: NameMapping) -> RuleListView {
        match newest_list(self.forms) {
            Some(k) => RuleListView {
                forms: self.forms.update(k, RuleForm::List { mapping }),
                selected: Some(k as usize),
            },
            None => self.with(RuleForm::List { mapping }),
        }
    }

    /// The list without the chosen rule, and nothing chosen.
    pub open spec fn without_selected(self) -> RuleListView {
        match self.selected {
            Some(i) => if i < self.forms.len() {
                RuleListView { forms: self.forms.remove(i as int), selected: None }
            } else {
                self
            },
            None => self,
        }
    }

    /// The list with the chosen rule before its neighbour, still chosen.
    pub open spec fn selected_up(self) -> RuleListView {
        match self.selected {
            Some(i) => if 0 < i < self.forms.len() {
                RuleListView {
                    forms: swapped(self.forms, i as int, i - 1),
                    selected: Some((i - 1) as usize),
                }
            } else {
                self
            },
            None => self,
        }
    }

    /// The list with the chosen rule behind its neighbour, still chosen.
    pub open spec fn selected_down(self) -> RuleListView {
        match self.selected {
            Some(i) => if i + 1 < self.forms.len() {
                RuleListView {
                    forms: swapped(self.forms, i as int, i + 1),
                    selected: Some((i + 1) as usize),
                }
            } else {
                self
            },
            None => self,
        }
    }
}

/// The index of the last rename list among `forms`.
pub open spec fn newest_list(forms: Seq<RuleForm>) -> Option<int>
    decreases forms.len(),
{
    if forms.len() == 0 {
        None
    } else if forms.last() is List {
        Some(forms.len() - 1)
    } else {
        newest_list(forms.drop_last())
    }
}

/// `forms` with the elements at `i` and `j` exchanged.
pub open spec fn swapped(forms: Seq<RuleForm>, i: int, j: int) -> Seq<RuleForm> {
    forms.update(i, forms[j]).update(j, forms[i])
}

/// What the editor below the list shows.
#[derive(Debug, Clone, Copy, PartialEq, Eq, Structural)]
pub enum EditorPane {
    /// The form of the rule at an index.
    Form(usize),
    /// A large placeholder: there are no rules.
    Placeholder,
    /// The advice to choose a rule.
    Advice,
    /// Nothing: the choice is not a rule of the list.
    Blank,
}

/// Whether `rules` are what `forms` describe, in their order.
pub open spec fn describe_all(forms: Seq<RuleForm>, rules: Seq<Rule>) -> bool {
    &&& rules.len() == forms.len()
    &&& forall|i: int|
        0 <= i < forms.len() ==> crate::form::describes(#[trigger] forms[i], rules[i])
}

impl RuleList {
    /// A list without rules.
    pub fn new() -> (r: Self)
        ensures
            r@.forms.len() == 0,
            r@.selected is None,
    {
        RuleList { forms: Vec::new(), selected: None }
    }

    /// Adds a rule behind the others and chooses it.
    pub fn push(&mut self, form: RuleForm)
        ensures
            final(self)@ == old(self)@.with(form),
            final(self)@.in_range(),
    {
        self.forms.push(form);
        self.selected = Some(self.forms.len() - 1);
    }

    /// Takes in a rename list and chooses it. It replaces the newest rename list; where there is
    /// none it comes behind the others.
    pub fn put_list(&mut self, mapping: NameMapping)
        ensures
            final(self)@ == old(self)@.with_list(mapping),
            final(self)@.in_range(),
    {
        let mut i: usize = self.forms.len();
        assert(self.forms@.take(i as int) =~= self.forms@);
        while i > 0
            invariant
                i <= self.forms@.len(),
                *self == *old(self),
                newest_list(self.forms@) == newest_list(self.forms@.take(i as int)),
            decreases i,
        {
            assert(self.forms@.take(i as int).drop_last() =~= self.forms@.take(i - 1));
            i = i - 1;
            if let RuleForm::List { .. } = &self.forms[i] {
                self.forms.set(i, RuleForm::List { mapping });
                self.selected = Some(i);
                return ;
            }
        }
        self.push(RuleForm::List { mapping });
    }

    /// Chooses the rule at `i`.
    pub fn select(&mut self, i: usize)
        requires
            i < old(self)@.forms.len(),
        ensures
            final(self)@ == (RuleListView { selected: Some(i), ..old(self)@ }),
            final(self)@.in_range(),
    {
        self.selected = Some(i);
    }

    /// Removes the chosen rule. Tells whether there was one.
    pub fn remove_selected(&mut self) -> (changed: bool)
        ensures
            final(self)@ == old(self)@.without_selected(),
            changed == (old(self)@.selected matches Some(i) && i < old(self)@.forms.len()),
            old(self)@.in_range() ==> final(self)@.in_range(),
    {
        if let Some(i) = self.selected {
            if i < self.forms.len() {
                self.forms.remove(i);
                self.selected = None;
                return true;
            }
        }
        false
    }

    /// Moves the chosen rule before its neighbour. Tells whether there was one before it.
    pub fn move_up(&mut self) -> (changed: bool)
        ensures
            final(self)@ == old(self)@.selected_up(),
            changed == (old(self)@.selected matches Some(i) && 0 < i < old(self)@.forms.len()),
            old(self)@.in_range() ==> final(self)@.in_range(),
    {
        if let Some(i) = self.selected {
            if 0 < i && i < self.forms.len() {
                let form = self.forms.remove(i);
                self.forms.insert(i - 1, form);
                self.selected = Some(i - 1);
                assert(self@ =~= old(self)@.selected_up());
                return true;
            }
        }
        false
    }

    /// Moves the chosen rule behind its neighbour. Tells whether there was one behind it.
    pub fn move_down(&mut self) -> (changed: bool)
        ensures
            final(self)@ == old(self)@.selected_down(),
            changed == (old(self)@.selected matches Some(i) && i + 1 < old(self)@.forms.len()),
            old(self)@.in_range() ==> final(self)@.in_range(),
    {
        if let Some(i) = self.selected {
            if i < self.forms.len() && i + 1 < self.forms.len() {
                let form = self.forms.remove(i);
                self.forms.insert(i + 1, form);
                self.selected = Some(i + 1);
                assert(self@ =~= old(self)@.selected_down());
                return true;
            }
        }
        false
    }

    /// Removes all rules. Tells whether there were any; without rules the choice stays as it is.
    pub fn clear(&mut self) -> (changed: bool)
        ensures
            changed == (old(self)@.forms.len() > 0),
            final(self)@ == (if changed {
                RuleListView { forms: Seq::empty(), selected: None }
            } else {
                old(self)@
            }),
            old(self)@.in_range() ==> final(self)@.in_range(),
    {
        if self.forms.len() > 0 {
            self.forms.clear();
            self.selected = None;
            true
        } else {
            false
        }
    }

    /// What the editor below the list shows.
    pub fn pane(&self) -> (r: EditorPane)
        ensures
            r == (match self@.selected {
                Some(i) => if i < self@.forms.len() {
                    EditorPane::Form(i)
                } else {
                    EditorPane::Blank
                },
                None => if self@.forms.len() == 0 {
                    EditorPane::Placeholder
                } else {
                    EditorPane::Advice
                },
            }),
    {
        match self.selected {
            Some(i) => if i < self.forms.len() {
                EditorPane::Form(i)
            } else {
                EditorPane::Blank
            },
            None => if self.forms.len() == 0 {
                EditorPane::Placeholder
            } else {
                EditorPane::Advice
            },
        }
    }

    /// The engine rules, in order.
    pub fn to_rules(&self) -> (r: Vec<Rule>)
        ensures
            describe_all(self@.forms, r@),
    {
        let mut r: Vec<Rule> = Vec::new();
        let mut i: usize = 0;
        while i < self.forms.len()
            invariant
                0 <= i <= self.forms@.len(),
                describe_all(self.forms@.take(i as int), r@),
            decreases self.forms@.len() - i,
        {
            let ghost before = r@;
            r.push(self.forms[i].to_rule());
            i = i + 1;
            assert forall|k: int| 0 <= k < i implies crate::form::describes(
                #[trigger] self.forms@.take(i as int)[k],
                r@[k],
            ) by {
                if k < i - 1 {
                    assert(crate::form::describes(self.forms@.take(i - 1)[k], before[k]));
                }
            }
        }
        assert(self.forms@.take(i as int) =~= self.forms@);
        r
    }
}

/// Moving a rule up and then down, or down and then up, leaves the list as it was.
pub proof fn moves_undo_each_other(list: RuleListView, i: usize)
    requires
        list.forms.len() <= usize::MAX,
        list.selected == Some(i),
    ensures
        0 < i < list.forms.len() ==> list.selected_up().selected_down() == list,
        i + 1 < list.forms.len() ==> list.selected_down().selected_up() == list,
{
    if 0 < i < list.forms.len() {
        assert(list.selected_up().selected_down() =~= list);
    }
    if i + 1 < list.forms.len() {
        assert(list.selected_down().selected_up() =~= list);
    }
}

/// Moving keeps the rules themselves: only their order changes, and the chosen rule stays chosen.
pub proof fn moves_keep_rules(list: RuleListView)
    requires
        list.forms.len() <= usize::MAX,
        list.in_range(),
    ensures
        list.selected_up().forms.to_multiset() == list.forms.to_multiset(),
        list.selected_down().forms.to_multiset() == list.forms.to_multiset(),
        list.selected matches Some(i) ==> {
            &&& list.selected_up().selected matches Some(j)
            &&& list.selected_up().forms[j as int] == list.forms[i as int]
        },
        list.selected matches Some(i) ==> {
            &&& list.selected_down().selected matches Some(j)
            &&& list.selected_down().forms[j as int] == list.forms[i as int]
        },
{
    if let Some(i) = list.selected {
        if 0 < i < list.forms.len() {
            swap_keeps_rules(list.forms, i as int, i - 1);
        }
        if i + 1 < list.forms.len() {
            swap_keeps_rules(list.forms, i as int, i + 1);
        }
    }
}

/// Exchanging two elements keeps the elements.
proof fn swap_keeps_rules(forms: Seq<RuleForm>, i: int, j: int)
    requires
        0 <= i < forms.len(),
        0 <= j < forms.len(),
    ensures
        swapped(forms, i, j).to_multiset() == forms.to_multiset(),
{
    broadcast use vstd::seq_lib::group_to_multiset_ensures;

    vstd::seq_lib::to_multiset_update(forms, i, forms[j]);
    vstd::seq_lib::to_multiset_update(forms.update(i, forms[j]), j, forms[i]);
    assert(swapped(forms, i, j).to_multiset() =~= forms.to_multiset());
}

/// The newest rename list is a rename list, and no rule behind it is one; without a newest one no
/// rule is a rename list.
pub proof fn newest_list_is_last(forms: Seq<RuleForm>)
    ensures
        match newest_list(forms) {
            Some(k) => {
                &&& 0 <= k < forms.len()
                &&& forms[k] is List
                &&& forall|j: int| k < j < forms.len() ==> !(#[trigger] forms[j] is List)
            },
            None => forall|j: int| 0 <= j < forms.len() ==> !(#[trigger] forms[j] is List),
        },
    decreases forms.len(),
{
    if forms.len() > 0 && !(forms.last() is List) {
        let rest = forms.drop_last();
        newest_list_is_last(rest);
        let newest = match newest_list(rest) {
            Some(k) => k,
            None => -1,
        };
        assert forall|j: int| newest < j < forms.len() implies !(#[trigger] forms[j] is List) by {
            if j < rest.len() {
                assert(rest[j] == forms[j]);
            }
        }
    }
}

/// Taking in a rename list where there is one already replaces the newest: the list grows by no
/// rule, and every other rule stays.
pub proof fn import_replaces_newest(list: RuleListView, mapping: NameMapping, k: int)
    requires
        newest_list(list.forms) == Some(k),
    ensures
        list.with_list(mapping).forms.len() == list.forms.len(),
        list.with_list(mapping).forms[k] == (RuleForm::List { mapping }),
        forall|j: int|
            0 <= j < list.forms.len() && j != k ==> #[trigger] list.with_list(mapping).forms[j]
                == list.forms[j],
{
    newest_list_is_last(list.forms);
}

/// Of two rename lists taken in one after the other only the second stays.
pub proof fn second_import_replaces_first(
    list: RuleListView,
    first: NameMapping,
    second: NameMapping,
)
    requires
        list.forms.len() < usize::MAX,
    ensures
        list.with_list(first).with_list(second) == list.with_list(second),
{
    newest_list_is_last(list.forms);
    newest_list_is_last(list.with_list(first).forms);
    let k = match newest_list(list.forms) {
        Some(k) => k,
        None => list.forms.len() as int,
    };
    assert(list.with_list(first).forms[k] is List);
    assert(newest_list(list.with_list(first).forms) == Some(k));
    assert(list.with_list(first).with_list(second) =~= list.with_list(second));
}

/// A rule that was just added is removed again by removing the chosen rule.
pub proof fn added_rule_can_be_removed(list: RuleListView, form: RuleForm)
    requires
        list.forms.len() < usize::MAX,
    ensures
        list.with(form).without_selected().forms == list.forms,
{
    assert(list.with(form).without_selected().forms =~= list.forms);
}

/// The chosen rule moves by one place and takes the choice along: it changes places with the rule
/// before it or behind it, and every other rule stays where it is. At the end of the list nothing
/// moves.
pub proof fn rules_move_by_one_place(list: RuleListView, i: usize)
    requires
        list.forms.len() <= usize::MAX,
        list.selected == Some(i),
        i < list.forms.len(),
    ensures
        ({
            let up = list.selected_up();
            if i == 0 {
                up == list
            } else {
                &&& up.selected == Some((i - 1) as usize)
                &&& up.forms.len() == list.forms.len()
                &&& up.forms[i - 1] == list.forms[i as int]
                &&& up.forms[i as int] == list.forms[i - 1]
                &&& forall|j: int|
                    0 <= j < list.forms.len() && j != i && j != i - 1 ==> #[trigger] up.forms[j]
                        == list.forms[j]
            }
        }),
        ({
            let down = list.selected_down();
            if i + 1 == list.forms.len() {
                down == list
            } else {
                &&& down.selected == Some((i + 1) as usize)
                &&& down.forms.len() == list.forms.len()
                &&& down.forms[i + 1] == list.forms[i as int]
                &&& down.forms[i as int] == list.forms[i + 1]
                &&& forall|j: int|
                    0 <= j < list.forms.len() && j != i && j != i + 1 ==> #[trigger] down.forms[j]
                        == list.forms[j]
            }
        }),
{
}

/// Removing takes away the chosen rule and no other: the rules before it stay, those behind it move
/// up by one, and nothing is chosen any more.
pub proof fn only_the_chosen_rule_is_removed(list: RuleListView, i: usize)
    requires
        list.selected == Some(i),
        i < list.forms.len(),
    ensures
        list.without_selected().selected is None,
        list.without_selected().forms.len() == list.forms.len() - 1,
        forall|j: int|
            0 <= j < i ==> #[trigger] list.without_selected().forms[j] == list.forms[j],
        forall|j: int|
            i <= j < list.forms.len() - 1 ==> #[trigger] list.without_selected().forms[j]
                == list.forms[j + 1],
{
}

/// Where nothing in the list is chosen, nothing is removed and nothing moves.
pub proof fn nothing_happens_without_a_choice(list: RuleListView)
    requires
        list.selected is None || list.selected->0 >= list.forms.len(),
    ensures
        list.without_selected() == list,
        list.selected_up() == list,
        list.selected_down() == list,
{
}

/// A rule is added behind all others, which stay, and is chosen; so is a rename list where the rules
/// hold none yet.
pub proof fn new_rules_come_last(list: RuleListView, form: RuleForm, mapping: NameMapping)
    requires
        list.forms.len() < usize::MAX,
    ensures
        list.with(form).forms.len() == list.forms.len() + 1,
        list.with(form).forms.last() == form,
        list.with(form).selected == Some(list.forms.len() as usize),
        forall|j: int|
            0 <= j < list.forms.len() ==> #[trigger] list.with(form).forms[j] == list.forms[j],
        (forall|j: int| 0 <= j < list.forms.len() ==> !(#[trigger] list.forms[j] is List))
            ==> list.with_list(mapping) == list.with(RuleForm::List { mapping }),
{
    newest_list_is_last(list.forms);
}

/// The rename list taken in is the one that is chosen, and its rule stands in the list.
pub proof fn imported_list_is_chosen(list: RuleListView, mapping: NameMapping)
    requires
        list.forms.len() < usize::MAX,
    ensures
        list.with_list(mapping).selected matches Some(k) && k < list.with_list(mapping).forms.len()
            && list.with_list(mapping).forms[k as int] == (RuleForm::List { mapping }),
{
    newest_list_is_last(list.forms);
}

/// The engine gets one rule for each form, in the order of the forms: forms that do not mind case,
/// for instance, come out as rules that do not, each at its own place.
pub proof fn rules_keep_order_and_fields(forms: Seq<RuleForm>, rules: Seq<Rule>, i: int)
    requires
        describe_all(forms, rules),
        0 <= i < forms.len(),
    ensures
        rules.len() == forms.len(),
        forms[i] is Replace ==> rules[i] is Replace && rules[i]->Replace_search
            == forms[i]->Replace_search && rules[i]->Replace_replace == forms[i]->Replace_replace
            && rules[i]->Replace_case_sensitive == forms[i]->Replace_case_sensitive,
        forms[i] is Regex ==> rules[i] is Regex && rules[i]->Regex_pattern
            == forms[i]->Regex_pattern && rules[i]->Regex_replace == forms[i]->Regex_replace,
        forms[i] is Case ==> rules[i] is Case,
        forms[i] is Prefix ==> rules[i] is Prefix && rules[i]->Prefix_text == forms[i]->Prefix_text,
        forms[i] is Suffix ==> rules[i] is Suffix && rules[i]->Suffix_text == forms[i]->Suffix_text,
        forms[i] is Number ==> rules[i] is Number && rules[i]->Number_sep == forms[i]->Number_sep,
        forms[i] is Ext ==> rules[i] is Ext && rules[i]->Ext_text == forms[i]->Ext_text,
        forms[i] is Strip ==> rules[i] is Strip && rules[i]->Strip_chars == forms[i]->Strip_chars,
        forms[i] is Trim ==> rules[i] is Trim && rules[i]->Trim_underscore
            == forms[i]->Trim_underscore,
        forms[i] is List ==> rules[i] is List && rules[i]->List_mapping@ == forms[i]->List_mapping@,
{
    assert(crate::form::describes(forms[i], rules[i]));
}

} // verus!

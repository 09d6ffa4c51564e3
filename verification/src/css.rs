//! CSS rules and how they are written out: a rule is a selector and its
//! declarations, kept in property order where rules are derived from tokens
//! and in the order they were written where they come from a template;
//! `{{ KEY }}` and `{{ VAL }}` in a rule stand for the key and the value of a
//! token.

use vstd::prelude::*;
use crate::strmap::{
    has_key, index_insert, insert_sorted, lookup, sorted_keys, lemma_first_index_at, lemma_insert_sorted,
    lemma_lower_bound_at,
};
use crate::text::{less_than, replace, replace_all, same_text, str_lt};

verus! {

/// The declarations of a rule: properties with their values, one entry per
/// property, in the order in which they are kept.
pub struct Declarations {
    entries: Vec<(String, String)>,
}

impl View for Declarations {
    type V = Seq<(Seq<char>, Seq<char>)>;

    closed spec fn view(&self) -> Seq<(Seq<char>, Seq<char>)> {
        Seq::new(self.entries@.len(), |i: int| (self.entries@[i].0@, self.entries@[i].1@))
    }
}

impl DeepView for Declarations {
    type V = Seq<(Seq<char>, Seq<char>)>;

    open spec fn deep_view(&self) -> Seq<(Seq<char>, Seq<char>)> {
        self@
    }
}

impl Declarations {
    /// No declarations.
    pub fn new() -> (d: Self)
        ensures
            d@ == Seq::<(Seq<char>, Seq<char>)>::empty(),
    {
        let d = Declarations { entries: Vec::new() };
        assert(d@ =~= Seq::<(Seq<char>, Seq<char>)>::empty());
        d
    }

    /// The number of declarations.
    pub fn len(&self) -> (n: usize)
        ensures
            n == self@.len(),
    {
        self.entries.len()
    }

    /// The property of the declaration at position `i`.
    pub fn key_at(&self, i: usize) -> (k: &String)
        requires
            i < self@.len(),
        ensures
            k@ == self@[i as int].0,
    {
        &self.entries[i].0
    }

    /// The value of the declaration at position `i`.
    pub fn value_at(&self, i: usize) -> (v: &String)
        requires
            i < self@.len(),
        ensures
            v@ == self@[i as int].1,
    {
        &self.entries[i].1
    }

    /// The position of the first declaration of `property`, or the number of
    /// declarations where there is none.
    fn find(&self, property: &str) -> (i: usize)
        ensures
            i <= self@.len(),
            forall|j: int| 0 <= j < i ==> #[trigger] self@[j].0 != property@,
            i < self@.len() ==> self@[i as int].0 == property@,
    {
        let mut i: usize = 0;
        while i < self.entries.len() && !same_text(self.entries[i].0.as_str(), property)
            invariant
                i <= self@.len(),
                self@.len() == self.entries@.len(),
                forall|j: int| 0 <= j < i ==> #[trigger] self@[j].0 != property@,
            decreases self.entries.len() - i,
        {
            i = i + 1;
        }
        i
    }

    /// The value of the first declaration of `property`, if any.
    pub fn get(&self, property: &str) -> (r: Option<&String>)
        ensures
            r is Some <==> has_key(self@, property@),
            r matches Some(v) ==> lookup(self@, property@) == Some(v@),
            r is None ==> lookup(self@, property@) is None,
    {
        let i = self.find(property);
        proof {
            lemma_first_index_at(self@, property@, i as int);
        }
        if i < self.entries.len() {
            Some(&self.entries[i].1)
        } else {
            None
        }
    }

    /// Stores `value` under `property` in property order: a declaration of
    /// `property` takes the new value; else the new declaration goes before the
    /// first one whose property does not come before `property`.
    pub fn insert(&mut self, property: String, value: String)
        ensures
            final(self)@ == insert_sorted(old(self)@, property@, value@),
            sorted_keys(old(self)@) ==> sorted_keys(final(self)@),
    {
        let ghost before = self@;
        proof {
            if sorted_keys(before) {
                lemma_insert_sorted(before, property@, value@);
            }
        }
        let ghost ev = self.entries@;
        let mut i: usize = 0;
        while i < self.entries.len() && less_than(self.entries[i].0.as_str(), property.as_str())
            invariant
                i <= before.len(),
                before == self@,
                before.len() == self.entries@.len(),
                forall|j: int| 0 <= j < i ==> str_lt(#[trigger] before[j].0, property@),
            decreases self.entries.len() - i,
        {
            i = i + 1;
        }
        proof {
            lemma_lower_bound_at(before, property@, i as int);
        }
        let found = i < self.entries.len() && same_text(self.entries[i].0.as_str(), property.as_str());
        let ghost k = property@;
        let ghost v = value@;
        if found {
            self.entries.set(i, (property, value));
        } else {
            self.entries.insert(i, (property, value));
        }
        assert(self@ =~= insert_sorted(before, k, v)) by {
            assert forall|j: int| 0 <= j < self@.len() implies self@[j] == insert_sorted(before, k, v)[j] by {
                if found {
                    if j != i {
                        assert(self.entries@[j] == ev[j]);
                    }
                } else if j < i {
                    assert(self.entries@[j] == ev[j]);
                } else if j > i {
                    assert(self.entries@[j] == ev[j - 1]);
                }
            }
        }
    }

    /// Stores `value` under `property` in the order of writing: a declaration
    /// of `property` keeps its place and takes the new value; a new one goes
    /// last.
    pub fn insert_in_order(&mut self, property: String, value: String)
        ensures
            final(self)@ == index_insert(old(self)@, property@, value@),
    {
        let ghost before = self@;
        let ghost ev = self.entries@;
        let i = self.find(property.as_str());
        proof {
            lemma_first_index_at(before, property@, i as int);
        }
        let ghost k = property@;
        let ghost v = value@;
        if i < self.entries.len() {
            self.entries.set(i, (property, value));
        } else {
            self.entries.push((property, value));
        }
        assert(self@ =~= index_insert(before, k, v)) by {
            assert forall|j: int| 0 <= j < self@.len() implies self@[j] == index_insert(before, k, v)[j] by {
                if j != i {
                    assert(self.entries@[j] == ev[j]);
                }
            }
        }
    }

    /// A copy of the declarations.
    pub fn duplicate(&self) -> (d: Self)
        ensures
            d@ == self@,
    {
        let mut entries: Vec<(String, String)> = Vec::new();
        let mut i: usize = 0;
        while i < self.entries.len()
            invariant
                i <= self.entries@.len(),
                entries@.len() == i,
                forall|j: int| 0 <= j < i ==> (#[trigger] entries@[j]).0@ == self.entries@[j].0@ && entries@[j].1@ == self.entries@[j].1@,
            decreases self.entries.len() - i,
        {
            let k = self.entries[i].0.clone();
            let v = self.entries[i].1.clone();
            entries.push((k, v));
            i = i + 1;
        }
        let d = Declarations { entries };
        assert(d@ =~= self@);
        d
    }
}

/// A CSS rule: a selector and its declarations, property to value.
pub struct CSSRule {
    pub selector: String,
    pub declarations: Declarations,
}

/// What a rule is: its selector and its declarations, in their order.
pub struct RuleModel {
    pub selector: Seq<char>,
    pub declarations: Seq<(Seq<char>, Seq<char>)>,
}

impl DeepView for CSSRule {
    type V = RuleModel;

    open spec fn deep_view(&self) -> RuleModel {
        RuleModel { selector: self.selector@, declarations: self.declarations@ }
    }
}

impl CSSRule {
    /// A copy of the rule.
    pub fn duplicate(&self) -> (r: CSSRule)
        ensures
            r.deep_view() == self.deep_view(),
    {
        CSSRule { selector: self.selector.clone(), declarations: self.declarations.duplicate() }
    }
}

/// Every rule of `rules` holds its declarations in property order, each
/// property once.
pub open spec fn rules_sorted(rules: Seq<RuleModel>) -> bool {
    forall|i: int| 0 <= i < rules.len() ==> sorted_keys((#[trigger] rules[i]).declarations)
}

/// Pushing onto a vector pushes the value's deep view onto the vector's.
pub proof fn lemma_push_deep_view<T: DeepView>(before: Vec<T>, after: Vec<T>, x: T)
    requires
        after@ == before@.push(x),
    ensures
        after.deep_view() == before.deep_view().push(x.deep_view()),
{
    assert forall|k: int| 0 <= k < before@.len() implies after@[k] == before@[k] by {}
    assert(after.deep_view() =~= before.deep_view().push(x.deep_view()));
}

/// The placeholder for a token's key.
pub open spec fn key_marker() -> Seq<char> {
    "{{ KEY }}"@
}

/// The placeholder for a token's value.
pub open spec fn value_marker() -> Seq<char> {
    "{{ VAL }}"@
}

/// `s` with every key placeholder replaced by `key`, then every value
/// placeholder by `val`.
pub open spec fn inject(s: Seq<char>, key: Seq<char>, val: Seq<char>) -> Seq<char> {
    replace_all(replace_all(s, key_marker(), key), value_marker(), val)
}

/// Puts a token's key and value into the placeholders of `s`.
pub fn inject_variables(s: &str, key: &str, val: &str) -> (r: String)
    ensures
        r@ == inject(s@, key@, val@),
{
    let with_key = replace(s, "{{ KEY }}", key);
    replace(with_key.as_str(), "{{ VAL }}", val)
}

/// `acc` after the declarations of `decls`, in order, are stored in it with
/// the token's key and value put into their properties and values.
pub open spec fn declare_all(
    acc: Seq<(Seq<char>, Seq<char>)>,
    decls: Seq<(Seq<char>, Seq<char>)>,
    key: Seq<char>,
    val: Seq<char>,
) -> Seq<(Seq<char>, Seq<char>)>
    decreases decls.len(),
{
    if decls.len() == 0 {
        acc
    } else {
        let d = decls.last();
        insert_sorted(declare_all(acc, decls.drop_last(), key, val), inject(d.0, key, val), inject(d.1, key, val))
    }
}

/// Storing declarations in property order keeps them in property order.
pub proof fn lemma_declare_all_sorted(
    acc: Seq<(Seq<char>, Seq<char>)>,
    decls: Seq<(Seq<char>, Seq<char>)>,
    key: Seq<char>,
    val: Seq<char>,
)
    requires
        sorted_keys(acc),
    ensures
        sorted_keys(declare_all(acc, decls, key, val)),
    decreases decls.len(),
{
    if decls.len() > 0 {
        lemma_declare_all_sorted(acc, decls.drop_last(), key, val);
        let d = decls.last();
        lemma_insert_sorted(declare_all(acc, decls.drop_last(), key, val), inject(d.0, key, val), inject(d.1, key, val));
    }
}

/// Stores every declaration of `decls` in `acc`, with the token's key and value
/// put into it.
pub fn declare_into(acc: &mut Declarations, decls: &Declarations, key: &str, val: &str)
    ensures
        final(acc)@ == declare_all(old(acc)@, decls@, key@, val@),
        sorted_keys(old(acc)@) ==> sorted_keys(final(acc)@),
{
    proof {
        if sorted_keys(acc@) {
            lemma_declare_all_sorted(acc@, decls@, key@, val@);
        }
    }
    let n = decls.len();
    let mut i: usize = 0;
    assert(decls@.take(0) =~= Seq::<(Seq<char>, Seq<char>)>::empty());
    while i < n
        invariant
            n == decls@.len(),
            i <= n,
            acc@ == declare_all(old(acc)@, decls@.take(i as int), key@, val@),
        decreases n - i,
    {
        let property = inject_variables(decls.key_at(i).as_str(), key, val);
        let value = inject_variables(decls.value_at(i).as_str(), key, val);
        acc.insert(property, value);
        assert(decls@.take(i + 1).drop_last() =~= decls@.take(i as int));
        i = i + 1;
    }
    assert(decls@.take(n as int) =~= decls@);
}

/// The text of declarations: `property:value;` for each, in order.
pub open spec fn declarations_text(d: Seq<(Seq<char>, Seq<char>)>) -> Seq<char>
    decreases d.len(),
{
    if d.len() == 0 {
        Seq::empty()
    } else {
        declarations_text(d.drop_last()) + d.last().0 + ":"@ + d.last().1 + ";"@
    }
}

/// The text of one rule: `selector{declarations}` and a line break.
pub open spec fn rule_text(r: RuleModel) -> Seq<char> {
    r.selector + "{"@ + declarations_text(r.declarations) + "}\n"@
}

/// The text of rules, one after another.
pub open spec fn rules_text(rules: Seq<RuleModel>) -> Seq<char>
    decreases rules.len(),
{
    if rules.len() == 0 {
        Seq::empty()
    } else {
        rules_text(rules.drop_last()) + rule_text(rules.last())
    }
}

/// The text of rules one after another is the text of each list in turn; no
/// rules make no text, and one rule makes its own text.
pub proof fn lemma_rules_text_concat(a: Seq<RuleModel>, b: Seq<RuleModel>)
    ensures
        rules_text(a + b) == rules_text(a) + rules_text(b),
        rules_text(Seq::empty()) == Seq::<char>::empty(),
        forall|r: RuleModel| #[trigger] rules_text(seq![r]) == rule_text(r),
    decreases b.len(),
{
    assert forall|r: RuleModel| #[trigger] rules_text(seq![r]) == rule_text(r) by {
        let one = seq![r];
        assert(one.len() == 1 && one.last() == r);
        assert(one.drop_last() =~= Seq::<RuleModel>::empty());
        assert(rules_text(one.drop_last()) == Seq::<char>::empty());
        assert(Seq::<char>::empty() + rule_text(r) =~= rule_text(r));
        assert(rules_text(one) == rules_text(one.drop_last()) + rule_text(one.last()));
    }
    if b.len() == 0 {
        assert(a + b =~= a);
        assert(rules_text(a) + rules_text(b) =~= rules_text(a));
    } else {
        lemma_rules_text_concat(a, b.drop_last());
        assert((a + b).drop_last() =~= a + b.drop_last());
        assert((a + b).last() == b.last());
        assert(rules_text(a + b) =~= rules_text(a) + rules_text(b));
    }
}

/// Writes out rules as CSS text, one line per rule.
pub fn render_rules(rules: &Vec<CSSRule>) -> (css: String)
    ensures
        css@ == rules_text(rules.deep_view()),
{
    let mut css = String::new();
    let mut i: usize = 0;
    let ghost all = rules.deep_view();
    assert(all.take(0) =~= Seq::<RuleModel>::empty());
    while i < rules.len()
        invariant
            all == rules.deep_view(),
            i <= rules.len(),
            css@ == rules_text(all.take(i as int)),
        decreases rules.len() - i,
    {
        let rule = &rules[i];
        let mut inner = String::new();
        let n = rule.declarations.len();
        let mut j: usize = 0;
        assert(rule.declarations@.take(0) =~= Seq::<(Seq<char>, Seq<char>)>::empty());
        while j < n
            invariant
                n == rule.declarations@.len(),
                j <= n,
                inner@ == declarations_text(rule.declarations@.take(j as int)),
            decreases n - j,
        {
            inner.append(rule.declarations.key_at(j).as_str());
            inner.append(":");
            inner.append(rule.declarations.value_at(j).as_str());
            inner.append(";");
            assert(rule.declarations@.take(j + 1).drop_last() =~= rule.declarations@.take(j as int));
            j = j + 1;
        }
        assert(rule.declarations@.take(n as int) =~= rule.declarations@);
        css.append(rule.selector.as_str());
        css.append("{");
        css.append(inner.as_str());
        css.append("}\n");
        assert(all.take(i + 1).drop_last() =~= all.take(i as int));
        assert(all[i as int] == rule.deep_view());
        i = i + 1;
    }
    assert(all.take(rules.len() as int) =~= all);
    css
}

} // verus!

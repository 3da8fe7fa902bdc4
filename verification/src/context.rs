//! The values handed to a template: a map from names to texts, lists and
//! sections of translated strings.

use vstd::prelude::*;
use vstd::string::*;
use crate::dict::Dict;
use crate::language::{codes_view, texts};

verus! {

/// One value of a template context.
#[derive(Debug)]
pub enum ContextValue {
    /// No value.
    Null,
    /// A truth value.
    Bool(bool),
    /// A whole number.
    Int(i64),
    /// A single text.
    Text(String),
    /// Texts in a fixed order.
    List(Vec<String>),
    /// Texts under names.
    Section(Dict<String>),
}

/// What a context value stands for.
pub enum ValueView {
    Null,
    Bool(bool),
    Int(int),
    Text(Seq<char>),
    List(Seq<Seq<char>>),
    Section(Map<Seq<char>, Seq<char>>),
}

impl ContextValue {
    /// A section holds each of its names once.
    pub open spec fn wf(&self) -> bool {
        match self {
            ContextValue::Section(d) => d.wf(),
            _ => true,
        }
    }

    /// What the value stands for.
    pub open spec fn view(&self) -> ValueView {
        match self {
            ContextValue::Null => ValueView::Null,
            ContextValue::Bool(b) => ValueView::Bool(*b),
            ContextValue::Int(n) => ValueView::Int(*n as int),
            ContextValue::Text(s) => ValueView::Text(s@),
            ContextValue::List(l) => ValueView::List(codes_view(l@)),
            ContextValue::Section(d) => ValueView::Section(texts(d@)),
        }
    }
}

/// What the values of a context stand for.
pub open spec fn value_views(m: Map<Seq<char>, ContextValue>) -> Map<Seq<char>, ValueView> {
    Map::new(|k: Seq<char>| m.contains_key(k), |k: Seq<char>| m[k]@)
}

/// Where two contexts are merged and both hold a name, the value of the second
/// stands; any other name keeps the value of the context that holds it.
pub proof fn lemma_merge_override(
    base: Map<Seq<char>, ValueView>,
    other: Map<Seq<char>, ValueView>,
    key: Seq<char>,
)
    ensures
        other.contains_key(key) ==> base.union_prefer_right(other)[key] == other[key],
        !other.contains_key(key) && base.contains_key(key) ==> base.union_prefer_right(other)[key]
            == base[key],
        base.union_prefer_right(other).contains_key(key) <==> base.contains_key(key)
            || other.contains_key(key),
{
}

/// The values under which a template is rendered.
#[derive(Debug)]
pub struct TemplateContext {
    values: Dict<ContextValue>,
}

impl Default for TemplateContext {
    /// The context without any value.
    fn default() -> (r: Self)
        ensures
            r.wf(),
            r@ == Map::<Seq<char>, ValueView>::empty(),
    {
        TemplateContext::new()
    }
}

impl TemplateContext {
    /// Each name occurs once and each value is well formed.
    pub closed spec fn wf(&self) -> bool {
        &&& self.values.wf()
        &&& forall|k: Seq<char>| #[trigger]
            self.values@.contains_key(k) ==> self.values@[k].wf()
    }

    /// The context as a map from names to what their values stand for.
    pub closed spec fn view(&self) -> Map<Seq<char>, ValueView> {
        value_views(self.values@)
    }

    /// The context without any value.
    pub fn new() -> (r: Self)
        ensures
            r.wf(),
            r@ == Map::<Seq<char>, ValueView>::empty(),
    {
        let r = TemplateContext { values: Dict::new() };
        assert(r@ =~= Map::<Seq<char>, ValueView>::empty());
        r
    }

    /// The context with `value` under `key`, in place of what stood there.
    pub fn insert(self, key: &str, value: ContextValue) -> (r: Self)
        requires
            self.wf(),
            value.wf(),
        ensures
            r.wf(),
            r@ == self@.insert(key@, value@),
    {
        let mut values = self.values;
        values.insert(String::from_str(key), value);
        let r = TemplateContext { values };
        assert(r@ =~= self@.insert(key@, value@));
        r
    }

    /// The context with the values of `other` added; where both have a name, the
    /// value of `other` stands.
    pub fn merge(self, other: TemplateContext) -> (r: Self)
        requires
            self.wf(),
            other.wf(),
        ensures
            r.wf(),
            r@ == self@.union_prefer_right(other@),
    {
        let mut values = self.values;
        let mut rest = other.values;
        let mut n = rest.len();
        while n > 0
            invariant
                values.wf(),
                rest.wf(),
                n == rest.keys().len(),
                forall|k: Seq<char>| #[trigger] values@.contains_key(k) ==> values@[k].wf(),
                forall|k: Seq<char>| #[trigger] rest@.contains_key(k) ==> rest@[k].wf(),
                value_views(values@).union_prefer_right(value_views(rest@)) == self@.union_prefer_right(
                    other@,
                ),
            decreases n,
        {
            let ghost before_values = values@;
            let ghost before_rest = rest@;
            match rest.pop() {
                Some(entry) => {
                    values.insert(entry.0, entry.1);
                    n -= 1;
                    assert(value_views(values@).union_prefer_right(value_views(rest@))
                        =~= value_views(before_values).union_prefer_right(
                        value_views(before_rest),
                    ));
                },
                None => {
                    n = 0;
                },
            }
        }
        let r = TemplateContext { values };
        assert(r@ =~= self@.union_prefer_right(other@)) by {
            assert(value_views(rest@) =~= Map::<Seq<char>, ValueView>::empty()) by {
                if exists|k: Seq<char>| rest@.contains_key(k) {
                    let k = choose|k: Seq<char>| rest@.contains_key(k);
                    assert(crate::dict::occurs(rest.keys(), k));
                }
            }
        }
        r
    }

    /// The value under `key`, if there is one.
    pub fn get(&self, key: &str) -> (r: Option<&ContextValue>)
        requires
            self.wf(),
        ensures
            r is Some <==> self@.contains_key(key@),
            r matches Some(v) ==> v@ == self@[key@] && v.wf(),
    {
        self.values.get(key)
    }

    /// The names and the values of the context, each value at the position of
    /// its name, every name once.
    pub fn into_parts(self) -> (r: (Vec<String>, Vec<ContextValue>))
        requires
            self.wf(),
        ensures
            r.0@.len() == r.1@.len(),
            crate::dict::distinct(r.0@),
            self@ == value_views(crate::dict::as_map(r.0@, r.1@)),
            forall|i: int| 0 <= i < r.1@.len() ==> (#[trigger] r.1@[i]).wf(),
    {
        proof {
            self.values.lemma_entries();
            assert forall|i: int| 0 <= i < self.values.vals().len() implies (
            #[trigger] self.values.vals()[i]).wf() by {
                assert(self.values@.contains_key(self.values.keys()[i]@));
            }
        }
        self.values.into_parts()
    }

    /// How many values the context holds.
    pub fn len(&self) -> (n: usize)
        requires
            self.wf(),
        ensures
            n == self@.dom().len(),
    {
        proof {
            self.values.lemma_len();
            assert(self@.dom() =~= self.values@.dom());
        }
        self.values.len()
    }
}

} // verus!

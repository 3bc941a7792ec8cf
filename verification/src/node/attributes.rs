//! The attribute mapping of a tag or an element: names are unique, a second
//! insertion under the same name replaces the value (last one wins), and the
//! insertion order is kept — the composer sorts by name on output, so the
//! rendered form does not depend on it.

use vstd::prelude::*;

use crate::node::value::Value;

verus! {

/// One attribute at the specification level.
#[verifier::ext_equal]
pub struct SpecAttr {
    pub name: Seq<char>,
    pub value: Seq<char>,
}

/// One named attribute.
#[derive(Debug)]
pub struct Attr {
    pub name: String,
    pub value: Value,
}

impl View for Attr {
    type V = SpecAttr;

    open spec fn view(&self) -> SpecAttr {
        SpecAttr { name: self.name@, value: self.value@ }
    }
}

impl Clone for Attr {
    /// Copy one attribute.
    fn clone(&self) -> (r: Self)
        ensures
            r@ == self@,
    {
        let r = Attr { name: self.name.clone(), value: self.value.clone() };
        proof {
            assert(r@ =~= self@);
        }
        r
    }
}

/// Whether all attribute names in the sequence are distinct.
pub open spec fn attrs_unique(s: Seq<SpecAttr>) -> bool {
    forall|i: int, j: int| 0 <= i < j < s.len() ==> s[i].name != s[j].name
}

/// The first index holding the given name, or `-1`.
pub open spec fn find_name(s: Seq<SpecAttr>, name: Seq<char>) -> int
    decreases s.len(),
{
    if s.len() == 0 {
        -1
    } else if s[0].name == name {
        0
    } else {
        let r = find_name(s.drop_first(), name);
        if r == -1 {
            -1
        } else {
            r + 1
        }
    }
}

pub proof fn lemma_find_name(s: Seq<SpecAttr>, name: Seq<char>)
    ensures
        find_name(s, name) == -1 ==> forall|k: int| 0 <= k < s.len() ==> s[k].name != name,
        find_name(s, name) != -1 ==> 0 <= find_name(s, name) < s.len()
            && s[find_name(s, name)].name == name
            && forall|k: int| 0 <= k < find_name(s, name) ==> s[k].name != name,
    decreases s.len(),
{
    if s.len() > 0 && s[0].name != name {
        lemma_find_name(s.drop_first(), name);
        assert forall|k: int| 1 <= k < s.len() implies s.drop_first()[k - 1] == s[k] by {}
    }
}

/// The value mapped to a name, if any.
pub open spec fn spec_lookup(s: Seq<SpecAttr>, name: Seq<char>) -> Option<Seq<char>> {
    if find_name(s, name) == -1 {
        None
    } else {
        Some(s[find_name(s, name)].value)
    }
}

/// The mapping after an insertion: replace in place, or append.
pub open spec fn spec_insert(s: Seq<SpecAttr>, name: Seq<char>, value: Seq<char>) -> Seq<
    SpecAttr,
> {
    if find_name(s, name) == -1 {
        s.push(SpecAttr { name, value })
    } else {
        s.update(find_name(s, name), SpecAttr { name, value })
    }
}

pub proof fn lemma_spec_insert_unique(s: Seq<SpecAttr>, name: Seq<char>, value: Seq<char>)
    requires
        attrs_unique(s),
    ensures
        attrs_unique(spec_insert(s, name, value)),
{
    lemma_find_name(s, name);
}

/// An attribute mapping.
#[derive(Debug)]
pub struct Attributes {
    pairs: Vec<Attr>,
}

impl View for Attributes {
    type V = Seq<SpecAttr>;

    closed spec fn view(&self) -> Seq<SpecAttr> {
        self.pairs@.map_values(|a: Attr| a@)
    }
}

impl Attributes {
    /// Whether the attribute names are distinct; every mapping this crate
    /// hands out satisfies it.
    pub open spec fn wf(&self) -> bool {
        attrs_unique(self@)
    }

    /// Create an empty mapping.
    pub fn new() -> (r: Attributes)
        ensures
            r@ == Seq::<SpecAttr>::empty(),
            r.wf(),
    {
        let r = Attributes { pairs: Vec::new() };
        proof {
            assert(r@ =~= Seq::<SpecAttr>::empty());
        }
        r
    }

    /// The number of attributes.
    pub fn len(&self) -> (r: usize)
        ensures
            r == self@.len(),
    {
        self.pairs.len()
    }

    /// Whether the mapping is empty.
    pub fn is_empty(&self) -> (r: bool)
        ensures
            r == (self@.len() == 0),
    {
        self.pairs.len() == 0
    }

    /// A borrow of the pair at an index, in insertion order.
    pub fn pair_at(&self, i: usize) -> (r: &Attr)
        requires
            i < self@.len(),
        ensures
            r@ == self@[i as int],
    {
        &self.pairs[i]
    }

    /// The index holding the given name, if any.
    fn position_of(&self, name: &str) -> (r: Option<usize>)
        ensures
            match r {
                Some(i) => i < self@.len() && find_name(self@, name@) == i as int,
                None => find_name(self@, name@) == -1,
            },
    {
        let n = self.pairs.len();
        let mut i: usize = 0;
        while i < n
            invariant
                i <= n,
                n == self@.len(),
                forall|k: int| 0 <= k < i ==> self@[k].name != name@,
            decreases n - i,
        {
            if crate::text::str_eq(self.pairs[i].name.as_str(), name) {
                proof {
                    lemma_find_name(self@, name@);
                    assert(self@[i as int] == self.pairs@[i as int]@);
                    assert(self@[i as int].name == name@);
                    let f = find_name(self@, name@);
                    if f == -1 {
                        assert(false);
                    } else if f < i as int {
                        assert(self@[f].name == name@);
                        assert(false);
                    } else if f > i as int {
                        assert(self@[i as int].name != name@);
                        assert(false);
                    }
                }
                return Some(i);
            }
            i = i + 1;
        }
        proof {
            lemma_find_name(self@, name@);
        }
        None
    }

    /// Insert an attribute; a present name keeps its place and takes the new
    /// value, a new name goes to the end.
    pub fn insert(&mut self, name: String, value: Value)
        requires
            old(self).wf(),
        ensures
            final(self)@ == spec_insert(old(self)@, name@, value@),
            final(self).wf(),
    {
        proof {
            lemma_spec_insert_unique(self@, name@, value@);
        }
        let position = self.position_of(name.as_str());
        match position {
            Some(i) => {
                self.pairs.remove(i);
                self.pairs.insert(i, Attr { name, value });
                proof {
                    assert(self@ =~= spec_insert(old(self)@, name@, value@));
                }
            },
            None => {
                self.pairs.push(Attr { name, value });
                proof {
                    assert(self@ =~= spec_insert(old(self)@, name@, value@));
                }
            },
        }
    }

    /// Look a name up.
    pub fn get(&self, name: &str) -> (r: Option<&Value>)
        ensures
            match r {
                Some(v) => spec_lookup(self@, name@) == Some(v@),
                None => spec_lookup(self@, name@) is None,
            },
    {
        let position = self.position_of(name);
        match position {
            Some(i) => Some(&self.pairs[i].value),
            None => None,
        }
    }
}

impl Clone for Attributes {
    /// Copy the mapping.
    fn clone(&self) -> (r: Self)
        ensures
            r@ == self@,
    {
        let n = self.pairs.len();
        let mut pairs: Vec<Attr> = Vec::new();
        let mut i: usize = 0;
        while i < n
            invariant
                i <= n,
                n == self@.len(),
                pairs@.len() == i,
                pairs@.map_values(|a: Attr| a@) =~= self@.take(i as int),
            decreases n - i,
        {
            let ghost pre = pairs@;
            pairs.push(self.pairs[i].clone());
            proof {
                assert(self.pairs@[i as int]@ == self@[i as int]);
                let mapped = pairs@.map_values(|a: Attr| a@);
                assert forall|k: int| 0 <= k < i as int + 1 implies #[trigger] mapped[k]
                    == self@.take(i as int + 1)[k] by {
                    if k < i as int {
                        assert(pre.map_values(|a: Attr| a@)[k] == self@.take(i as int)[k]);
                        assert(pairs@[k] == pre[k]);
                    }
                }
                assert(pairs@.map_values(|a: Attr| a@) =~= self@.take(i as int + 1));
            }
            i = i + 1;
        }
        let r = Attributes { pairs };
        proof {
            assert(r@ =~= self@);
        }
        r
    }
}

impl PartialEq for Attributes {
    /// Mappings are equal when they hold the same attributes in the same
    /// insertion order.
    fn eq(&self, other: &Attributes) -> (r: bool) {
        let n = self.pairs.len();
        if n != other.pairs.len() {
            proof {
                assert(self@ != other@);
            }
            return false;
        }
        let mut i: usize = 0;
        while i < n
            invariant
                i <= n,
                n == self@.len() == other@.len(),
                forall|k: int| 0 <= k < i ==> self@[k] =~= other@[k],
            decreases n - i,
        {
            if !(self.pairs[i].name == other.pairs[i].name) {
                proof {
                    assert(self@[i as int] != other@[i as int]);
                }
                return false;
            }
            if !(self.pairs[i].value == other.pairs[i].value) {
                proof {
                    assert(self@[i as int] != other@[i as int]);
                }
                return false;
            }
            i = i + 1;
        }
        proof {
            assert(self@ =~= other@);
        }
        true
    }
}

impl vstd::std_specs::cmp::PartialEqSpecImpl for Attributes {
    open spec fn obeys_eq_spec() -> bool {
        true
    }

    open spec fn eq_spec(&self, other: &Attributes) -> bool {
        self@ == other@
    }
}

} // verus!

//! The attribute collection of an element, kept ordered by key.

use vstd::prelude::*;

use crate::attribute::Attribute;
use crate::model::{attr_reactive, attrs_reactive, canon_attr, render_attr, render_attr_entry, render_attrs, AttrV};
use crate::random_id::{opt_id_view, RandomId};
use crate::reactive_js::{add_descs, compile_attrs, lemma_add_descs_concat, Reactivity};
use crate::strutil::{lex_lt, str_lt};

verus! {

/// The ghost sequence of (key, value) views of an attribute list.
pub open spec fn attr_entry_views(l: Seq<(String, Attribute)>) -> Seq<(Seq<char>, AttrV)> {
    l.map_values(|e: (String, Attribute)| (e.0@, e.1@))
}

/// True when some entry of the list has the key.
pub open spec fn attrs_have_key(l: Seq<(Seq<char>, AttrV)>, key: Seq<char>) -> bool {
    exists|i: int| 0 <= i < l.len() && (#[trigger] l[i]).0 == key
}

/// True when the entries are strictly ordered by key.
pub open spec fn attrs_sorted(l: Seq<(Seq<char>, AttrV)>) -> bool {
    forall|i: int, j: int| 0 <= i < j < l.len() ==> lex_lt((#[trigger] l[i]).0, (#[trigger] l[j]).0)
}

/// Insertion into a key-ordered entry list, before the first larger key.
pub open spec fn insert_sorted(
    l: Seq<(Seq<char>, AttrV)>,
    key: Seq<char>,
    attr: AttrV,
) -> Seq<(Seq<char>, AttrV)>
    decreases l.len(),
{
    if l.len() == 0 {
        seq![(key, attr)]
    } else if lex_lt(key, l.first().0) {
        seq![(key, attr)] + l
    } else {
        seq![l.first()] + insert_sorted(l.drop_first(), key, attr)
    }
}

/// The attributes of an element: key/value pairs with unique keys, rendered
/// in key order.
#[derive(Debug, PartialEq)]
pub struct Attributes {
    pub list: Vec<(String, Attribute)>,
}

impl View for Attributes {
    type V = Seq<(Seq<char>, AttrV)>;

    open spec fn view(&self) -> Seq<(Seq<char>, AttrV)> {
        attr_entry_views(self.list@)
    }
}

impl Attributes {
    /// A well-formed collection is strictly ordered by key (so keys are also
    /// unique).
    pub open spec fn wf(&self) -> bool {
        attrs_sorted(self@)
    }

    /// The empty collection.
    pub fn new_empty() -> (r: Attributes)
        ensures
            r@ == Seq::<(Seq<char>, AttrV)>::empty(),
            r.wf(),
    {
        let r = Attributes { list: Vec::new() };
        proof {
            assert(r@ =~= Seq::<(Seq<char>, AttrV)>::empty());
        }
        r
    }

    /// Builds a collection from a list of entries, inserting one by one; the
    /// keys must be pairwise distinct.
    pub fn new(list: Vec<(String, Attribute)>) -> (r: Attributes)
        requires
            forall|i: int, j: int|
                0 <= i < j < list@.len() ==> (#[trigger] list@[i]).0@ != (#[trigger] list@[j]).0@,
        ensures
            r.wf(),
            r@ == insert_all(attr_entry_views(list@)),
    {
        let ghost entries = attr_entry_views(list@);
        let mut r = Attributes::new_empty();
        let mut rest = list;
        let ghost done: int = 0;
        while rest.len() > 0
            invariant
                0 <= done <= entries.len(),
                done + rest@.len() == entries.len(),
                forall|i: int| 0 <= i < rest@.len() ==> #[trigger] rest@[i] == list@[done + i],
                forall|i: int, j: int|
                    0 <= i < j < list@.len() ==> (#[trigger] list@[i]).0@ != (
                    #[trigger] list@[j]).0@,
                entries == attr_entry_views(list@),
                r.wf(),
                r@ == insert_all(entries.take(done)),
                forall|k: Seq<char>|
                    attrs_have_key(r@, k) ==> exists|i: int|
                        0 <= i < done && (#[trigger] entries[i]).0 == k,
            decreases rest@.len(),
        {
            let entry = rest.remove(0);
            proof {
                assert(entry == list@[done]);
                assert(!attrs_have_key(r@, entry.0@)) by {
                    if attrs_have_key(r@, entry.0@) {
                        let i = choose|i: int|
                            0 <= i < done && (#[trigger] entries[i]).0 == entry.0@;
                        assert(list@[i].0@ == entry.0@);
                    }
                }
            }
            let ghost prev = r@;
            r.insert(entry.0, entry.1);
            proof {
                done = done + 1;
                assert(entries.take(done).drop_last() =~= entries.take(done - 1));
                lemma_insert_all_step(entries, done);
                assert forall|k: Seq<char>| attrs_have_key(r@, k) implies exists|i: int|
                    0 <= i < done && (#[trigger] entries[i]).0 == k by {
                    let j = choose|j: int| 0 <= j < r@.len() && (#[trigger] r@[j]).0 == k;
                    lemma_insert_sorted_keys(prev, entries[done - 1].0, entries[done - 1].1, k);
                }
            }
        }
        proof {
            assert(entries.take(entries.len() as int) =~= entries);
        }
        r
    }

    /// Whether the collection holds no attribute.
    pub fn is_empty(&self) -> (r: bool)
        ensures
            r == (self@.len() == 0),
    {
        self.list.len() == 0
    }

    /// Inserts an attribute under a key not yet present, keeping the key
    /// order.
    pub fn insert(&mut self, key: String, attribute: Attribute)
        requires
            old(self).wf(),
            !attrs_have_key(old(self)@, key@),
        ensures
            final(self)@ == insert_sorted(old(self)@, key@, attribute@),
            final(self).wf(),
    {
        let ghost orig = self@;
        let mut pos: usize = 0;
        while pos < self.list.len()
            invariant
                0 <= pos <= self.list@.len(),
                forall|i: int| 0 <= i < pos ==> !lex_lt(key@, (#[trigger] orig[i]).0),
                self@ == orig,
            decreases self.list@.len() - pos,
        {
            if str_lt(key.as_str(), self.list[pos].0.as_str()) {
                break;
            }
            pos = pos + 1;
        }
        proof {
            assert(pos < orig.len() ==> lex_lt(key@, orig[pos as int].0));
        }
        self.list.insert(pos, (key, attribute));
        proof {
            assert(self@ =~= orig.take(pos as int) + seq![(key@, attribute@)] + orig.skip(
                pos as int,
            ));
            lemma_insert_sorted_at(orig, key@, attribute@, pos as int);
            lemma_insert_sorted_keeps_sorted(orig, key@, attribute@);
        }
    }

    /// Whether some attribute reads a state cell.
    pub fn is_reactive(&self) -> (r: bool)
        ensures
            r == attrs_reactive(self@),
    {
        let mut i: usize = 0;
        while i < self.list.len()
            invariant
                0 <= i <= self.list@.len(),
                forall|j: int| 0 <= j < i ==> !attr_reactive((#[trigger] self@[j]).1),
            decreases self.list@.len() - i,
        {
            if self.list[i].1.is_reactive() {
                proof {
                    assert(attr_reactive(self@[i as int].1));
                }
                return true;
            }
            i = i + 1;
        }
        false
    }

    /// Canonicalizes every attribute in place.
    pub fn optimize(&mut self)
        ensures
            final(self)@.len() == old(self)@.len(),
            forall|i: int|
                0 <= i < old(self)@.len() ==> #[trigger] final(self)@[i] == (
                old(self)@[i].0,
                canon_attr(old(self)@[i].1),
            ),
            old(self).wf() ==> final(self).wf(),
    {
        let ghost orig = self@;
        let mut rest: Vec<(String, Attribute)> = Vec::new();
        core::mem::swap(&mut rest, &mut self.list);
        let ghost done: int = 0;
        while rest.len() > 0
            invariant
                0 <= done <= orig.len(),
                done + rest@.len() == orig.len(),
                forall|j: int|
                    0 <= j < rest@.len() ==> (#[trigger] rest@[j].0@, rest@[j].1@) == orig[done
                        + j],
                self@.len() == done,
                forall|j: int|
                    0 <= j < done ==> #[trigger] self@[j] == (orig[j].0, canon_attr(orig[j].1)),
            decreases rest@.len(),
        {
            let (key, mut attr) = rest.remove(0);
            let ghost key_view = key@;
            let ghost attr_before = attr@;
            proof {
                assert((key_view, attr_before) == orig[done]);
            }
            attr.optimize();
            let ghost pre_views = self@;
            self.list.push((key, attr));
            proof {
                done = done + 1;
                assert(self@ =~= pre_views + seq![(key_view, canon_attr(attr_before))]);
            }
        }
        proof {
            if old(self).wf() {
                assert forall|i: int, j: int|
                    0 <= i < j < self@.len() implies lex_lt(
                    (#[trigger] self@[i]).0,
                    (#[trigger] self@[j]).0,
                ) by {
                    assert(self@[i].0 == orig[i].0);
                    assert(self@[j].0 == orig[j].0);
                    assert(lex_lt(orig[i].0, orig[j].0));
                }
            }
        }
    }

    /// Appends the rendering of all attributes, separated by single spaces,
    /// to `output`.
    pub fn render(&self, output: &mut String)
        ensures
            final(output)@ == old(output)@ + (if self@.len() > 0 {
                render_attrs(self@, 0)
            } else {
                Seq::<char>::empty()
            }),
    {
        let ghost base = output@;
        let n = self.list.len();
        let mut i: usize = 0;
        while i < n
            invariant
                n == self@.len(),
                0 <= i <= n,
                n > 0 ==> base + render_attrs(self@, 0) == output@ + (if i < n {
                    render_attrs(self@, i as int)
                } else {
                    Seq::<char>::empty()
                }),
                n == 0 ==> output@ == base,
            decreases n - i,
        {
            let entry = &self.list[i];
            output.append(entry.0.as_str());
            match &entry.1 {
                Attribute::Empty => {},
                _ => {
                    output.append("=\"");
                    entry.1.render(output);
                    output.append("\"");
                },
            }
            proof {
                assert(render_attr_entry(self@[i as int]) == (if self@[i as int].1 is Empty {
                    self@[i as int].0
                } else {
                    self@[i as int].0 + "=\""@ + render_attr(self@[i as int].1) + "\""@
                }));
            }
            if i + 1 != n {
                output.append(" ");
            }
            i = i + 1;
        }
    }
}

impl Attributes {
    /// Compiles the patch descriptors of every attribute that reads state,
    /// under the enclosing element's id.
    pub fn reactivity(&self, element_id: Option<&RandomId>, reactivity: &mut Reactivity)
        requires
            forall|i: int|
                0 <= i < self@.len() ==> crate::reactive_js::attr_closure_free(
                    (#[trigger] self@[i]).1,
                ),
        ensures
            final(reactivity)@ == add_descs(
                old(reactivity)@,
                compile_attrs(self@, 0, opt_id_view(element_id)),
                0,
            ),
    {
        let ghost eidv = opt_id_view(element_id);
        let ghost entries = self@;
        let ghost target = add_descs(old(reactivity)@, compile_attrs(entries, 0, eidv), 0);
        let n = self.list.len();
        let mut i: usize = 0;
        while i < n
            invariant
                n == entries.len(),
                0 <= i <= n,
                add_descs(reactivity@, compile_attrs(entries, i as int, eidv), 0) == target,
            decreases n - i,
        {
            let ghost before = reactivity@;
            let entry = &self.list[i];
            entry.1.reactivity(element_id, entry.0.as_str(), reactivity);
            proof {
                let this = crate::reactive_js::compile_attr(
                    entries[i as int].0,
                    entries[i as int].1,
                    eidv,
                );
                let rest = compile_attrs(entries, i as int + 1, eidv);
                assert(compile_attrs(entries, i as int, eidv) == this + rest);
                lemma_add_descs_concat(before, this, rest);
            }
            i = i + 1;
        }
        proof {
            assert(compile_attrs(entries, n as int, eidv).len() == 0);
            assert(compile_attrs(entries, n as int, eidv) =~= Seq::<
                crate::reactive_js::DescV,
            >::empty());
        }
    }
}

/// Folds sorted insertion over an entry list, left to right.
pub open spec fn insert_all(l: Seq<(Seq<char>, AttrV)>) -> Seq<(Seq<char>, AttrV)>
    decreases l.len(),
{
    if l.len() == 0 {
        Seq::empty()
    } else {
        insert_sorted(insert_all(l.drop_last()), l.last().0, l.last().1)
    }
}

proof fn lemma_insert_all_step(entries: Seq<(Seq<char>, AttrV)>, done: int)
    requires
        0 < done <= entries.len(),
    ensures
        insert_all(entries.take(done)) == insert_sorted(
            insert_all(entries.take(done - 1)),
            entries[done - 1].0,
            entries[done - 1].1,
        ),
{
    assert(entries.take(done).drop_last() =~= entries.take(done - 1));
    assert(entries.take(done).last() == entries[done - 1]);
}

/// Sorted insertion places the new entry and keeps exactly the old ones.
proof fn lemma_insert_sorted_keys(
    l: Seq<(Seq<char>, AttrV)>,
    key: Seq<char>,
    attr: AttrV,
    k: Seq<char>,
)
    requires
        attrs_have_key(insert_sorted(l, key, attr), k),
    ensures
        k == key || attrs_have_key(l, k),
    decreases l.len(),
{
    let r = insert_sorted(l, key, attr);
    if l.len() == 0 {
        assert(r =~= seq![(key, attr)]);
    } else if lex_lt(key, l.first().0) {
        assert(r =~= seq![(key, attr)] + l);
        let j = choose|j: int| 0 <= j < r.len() && (#[trigger] r[j]).0 == k;
        if j > 0 {
            assert(l[j - 1].0 == k);
        }
    } else {
        assert(r =~= seq![l.first()] + insert_sorted(l.drop_first(), key, attr));
        let j = choose|j: int| 0 <= j < r.len() && (#[trigger] r[j]).0 == k;
        if j == 0 {
            assert(l[0].0 == k);
        } else {
            assert(attrs_have_key(insert_sorted(l.drop_first(), key, attr), k));
            lemma_insert_sorted_keys(l.drop_first(), key, attr, k);
            if attrs_have_key(l.drop_first(), k) {
                let m = choose|m: int|
                    0 <= m < l.drop_first().len() && (#[trigger] l.drop_first()[m]).0 == k;
                assert(l[m + 1].0 == k);
            }
        }
    }
}

/// Splicing a new entry at the position found by linear search matches the
/// recursive definition of sorted insertion.
proof fn lemma_insert_sorted_at(l: Seq<(Seq<char>, AttrV)>, key: Seq<char>, attr: AttrV, p: int)
    requires
        0 <= p <= l.len(),
        forall|i: int| 0 <= i < p ==> !lex_lt(key, (#[trigger] l[i]).0),
        p < l.len() ==> lex_lt(key, l[p].0),
    ensures
        insert_sorted(l, key, attr) == l.take(p) + seq![(key, attr)] + l.skip(p),
    decreases l.len(),
{
    if l.len() == 0 {
        assert(insert_sorted(l, key, attr) =~= l.take(0) + seq![(key, attr)] + l.skip(0));
    } else if p == 0 {
        assert(lex_lt(key, l.first().0));
        assert(insert_sorted(l, key, attr) =~= l.take(0) + seq![(key, attr)] + l.skip(0));
    } else {
        assert(!lex_lt(key, l.first().0));
        assert(forall|i: int|
            0 <= i < p - 1 ==> !lex_lt(key, (#[trigger] l.drop_first()[i]).0));
        assert(p - 1 < l.drop_first().len() ==> lex_lt(key, l.drop_first()[p - 1].0));
        lemma_insert_sorted_at(l.drop_first(), key, attr, p - 1);
        assert(insert_sorted(l, key, attr) =~= l.take(p) + seq![(key, attr)] + l.skip(p));
    }
}

/// Sorted insertion of a fresh key keeps the list strictly ordered.
proof fn lemma_insert_sorted_keeps_sorted(l: Seq<(Seq<char>, AttrV)>, key: Seq<char>, attr: AttrV)
    requires
        attrs_sorted(l),
        !attrs_have_key(l, key),
    ensures
        attrs_sorted(insert_sorted(l, key, attr)),
    decreases l.len(),
{
    let r = insert_sorted(l, key, attr);
    if l.len() == 0 {
    } else if lex_lt(key, l.first().0) {
        assert(r =~= seq![(key, attr)] + l);
        assert forall|i: int, j: int| 0 <= i < j < r.len() implies lex_lt(
            (#[trigger] r[i]).0,
            (#[trigger] r[j]).0,
        ) by {
            if i == 0 {
                if j == 1 {
                    assert(lex_lt(key, l[0].0));
                } else {
                    assert(lex_lt(l[0].0, l[j - 1].0));
                    crate::strutil::lemma_lex_lt_trans(key, l[0].0, l[j - 1].0);
                }
            } else {
                assert(lex_lt(l[i - 1].0, l[j - 1].0));
            }
        }
    } else {
        assert(l.first().0 != key);
        assert(!lex_lt(key, l.first().0));
        crate::strutil::lemma_lex_total(key, l.first().0);
        assert(lex_lt(l.first().0, key));
        assert(attrs_sorted(l.drop_first())) by {
            assert(forall|i: int, j: int|
                0 <= i < j < l.drop_first().len() ==> lex_lt(
                    (#[trigger] l.drop_first()[i]).0,
                    (#[trigger] l.drop_first()[j]).0,
                ));
        }
        assert(!attrs_have_key(l.drop_first(), key)) by {
            if attrs_have_key(l.drop_first(), key) {
                let m = choose|m: int|
                    0 <= m < l.drop_first().len() && (#[trigger] l.drop_first()[m]).0 == key;
                assert(l[m + 1].0 == key);
            }
        }
        lemma_insert_sorted_keeps_sorted(l.drop_first(), key, attr);
        let inner = insert_sorted(l.drop_first(), key, attr);
        assert(r =~= seq![l.first()] + inner);
        assert forall|i: int, j: int| 0 <= i < j < r.len() implies lex_lt(
            (#[trigger] r[i]).0,
            (#[trigger] r[j]).0,
        ) by {
            if i == 0 {
                assert(r[j] == inner[j - 1]);
                lemma_insert_sorted_keys_mem(l.drop_first(), key, attr, j - 1);
                if inner[j - 1].0 == key {
                    assert(lex_lt(l.first().0, key));
                } else {
                    let m = choose|m: int|
                        0 <= m < l.drop_first().len() && (#[trigger] l.drop_first()[m]).0
                            == inner[j - 1].0;
                    assert(lex_lt(l[0].0, l[m + 1].0));
                }
            } else {
                assert(lex_lt(inner[i - 1].0, inner[j - 1].0));
            }
        }
    }
}

/// Every entry of a sorted insertion is the new entry or one of the old ones.
proof fn lemma_insert_sorted_keys_mem(
    l: Seq<(Seq<char>, AttrV)>,
    key: Seq<char>,
    attr: AttrV,
    j: int,
)
    requires
        0 <= j < insert_sorted(l, key, attr).len(),
    ensures
        insert_sorted(l, key, attr)[j].0 == key || attrs_have_key(
            l,
            insert_sorted(l, key, attr)[j].0,
        ),
    decreases l.len(),
{
    let r = insert_sorted(l, key, attr);
    if l.len() == 0 {
    } else if lex_lt(key, l.first().0) {
        assert(r =~= seq![(key, attr)] + l);
        if j > 0 {
            assert(l[j - 1].0 == r[j].0);
        }
    } else {
        assert(r =~= seq![l.first()] + insert_sorted(l.drop_first(), key, attr));
        if j == 0 {
            assert(l[0].0 == r[0].0);
        } else {
            lemma_insert_sorted_keys_mem(l.drop_first(), key, attr, j - 1);
            if attrs_have_key(l.drop_first(), r[j].0) {
                let m = choose|m: int|
                    0 <= m < l.drop_first().len() && (#[trigger] l.drop_first()[m]).0 == r[j].0;
                assert(l[m + 1].0 == r[j].0);
            }
        }
    }
}

} // verus!

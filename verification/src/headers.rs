//! The headers of a request: for each name, the values given under it.

use crate::text::{eq_ignore_case, same_name};
use vstd::prelude::*;

verus! {

/// One header: a name and the values given under it, in the order given.
#[derive(Debug)]
pub struct Header {
    pub name: Vec<u8>,
    pub values: Vec<Vec<u8>>,
}

/// What a [`Header`] holds.
pub struct HeaderView {
    pub name: Seq<u8>,
    pub values: Seq<Seq<u8>>,
}

impl View for Header {
    type V = HeaderView;

    open spec fn view(&self) -> HeaderView {
        HeaderView {
            name: self.name@,
            values: Seq::new(self.values@.len(), |i: int| self.values@[i]@),
        }
    }
}

/// Whether some header in `h` goes by `name`, whatever its case.
pub open spec fn has_header(h: Seq<HeaderView>, name: Seq<u8>) -> bool {
    exists|i: int| 0 <= i < h.len() && same_name(#[trigger] h[i].name, name)
}

/// Where in `h` the header that goes by `name` stands.
pub open spec fn position(h: Seq<HeaderView>, name: Seq<u8>) -> int {
    choose|i: int| 0 <= i < h.len() && same_name(#[trigger] h[i].name, name)
}

/// No two headers go by the same name, and each has a value.
pub open spec fn well_formed(h: Seq<HeaderView>) -> bool {
    &&& forall|i: int, j: int|
        0 <= i < j < h.len() ==> !same_name(#[trigger] h[i].name, #[trigger] h[j].name)
    &&& forall|i: int| 0 <= i < h.len() ==> (#[trigger] h[i]).values.len() > 0
}

/// `h` after `name` was set to the single value `value`: a header of that name
/// gives way to the new one, which takes its place; without one, the new
/// header goes to the end.
pub open spec fn with_header(h: Seq<HeaderView>, name: Seq<u8>, value: Seq<u8>) -> Seq<
    HeaderView,
> {
    let header = HeaderView { name: name, values: seq![value] };
    if has_header(h, name) {
        h.update(position(h, name), header)
    } else {
        h.push(header)
    }
}

/// `h` after `value` was added under `name`: a header of that name gets it as
/// its last value; without one, a new header goes to the end.
pub open spec fn with_value(h: Seq<HeaderView>, name: Seq<u8>, value: Seq<u8>) -> Seq<
    HeaderView,
> {
    if has_header(h, name) {
        let i = position(h, name);
        h.update(i, HeaderView { name: h[i].name, values: h[i].values.push(value) })
    } else {
        h.push(HeaderView { name: name, values: seq![value] })
    }
}

/// `h` without the headers that go by `name`; the others stay in their order.
pub open spec fn without_header(h: Seq<HeaderView>, name: Seq<u8>) -> Seq<HeaderView> {
    h.filter(|e: HeaderView| !same_name(e.name, name))
}

/// In a well-formed list a name stands at one place only.
pub proof fn lemma_position_unique(h: Seq<HeaderView>, name: Seq<u8>, i: int)
    requires
        well_formed(h),
        0 <= i < h.len(),
        same_name(h[i].name, name),
    ensures
        has_header(h, name),
        position(h, name) == i,
{
    let p = position(h, name);
    if p < i {
        assert(!same_name(h[p].name, h[i].name));
    } else if i < p {
        assert(!same_name(h[i].name, h[p].name));
    }
}

/// Setting a header keeps a list well-formed.
pub proof fn lemma_with_header_well_formed(h: Seq<HeaderView>, name: Seq<u8>, value: Seq<u8>)
    requires
        well_formed(h),
    ensures
        well_formed(with_header(h, name, value)),
        has_header(with_header(h, name, value), name),
{
    let r = with_header(h, name, value);
    if has_header(h, name) {
        let p = position(h, name);
        assert(same_name(r[p].name, name));
        assert forall|i: int, j: int| 0 <= i < j < r.len() implies !same_name(
            #[trigger] r[i].name,
            #[trigger] r[j].name,
        ) by {
            assert(!same_name(h[i].name, h[j].name));
        }
    } else {
        assert(same_name(r[h.len() as int].name, name));
        assert forall|i: int, j: int| 0 <= i < j < r.len() implies !same_name(
            #[trigger] r[i].name,
            #[trigger] r[j].name,
        ) by {
            if j < h.len() {
                assert(!same_name(h[i].name, h[j].name));
            } else {
                assert(!same_name(h[i].name, name));
            }
        }
    }
}

/// Adding a value keeps a list well-formed.
pub proof fn lemma_with_value_well_formed(h: Seq<HeaderView>, name: Seq<u8>, value: Seq<u8>)
    requires
        well_formed(h),
    ensures
        well_formed(with_value(h, name, value)),
        has_header(with_value(h, name, value), name),
{
    let r = with_value(h, name, value);
    if has_header(h, name) {
        let p = position(h, name);
        assert(same_name(r[p].name, name));
        assert forall|i: int, j: int| 0 <= i < j < r.len() implies !same_name(
            #[trigger] r[i].name,
            #[trigger] r[j].name,
        ) by {
            assert(!same_name(h[i].name, h[j].name));
        }
        assert forall|i: int| 0 <= i < r.len() implies (#[trigger] r[i]).values.len() > 0 by {
            assert(h[i].values.len() > 0);
        }
    } else {
        assert(same_name(r[h.len() as int].name, name));
        assert forall|i: int, j: int| 0 <= i < j < r.len() implies !same_name(
            #[trigger] r[i].name,
            #[trigger] r[j].name,
        ) by {
            if j < h.len() {
                assert(!same_name(h[i].name, h[j].name));
            } else {
                assert(!same_name(h[i].name, name));
            }
        }
    }
}

/// A header that was set is there, with the one value.
pub proof fn lemma_with_header_sets(h: Seq<HeaderView>, name: Seq<u8>, value: Seq<u8>)
    ensures
        has_header(with_header(h, name, value), name),
        with_header(h, name, value).contains(HeaderView { name: name, values: seq![value] }),
{
    let r = with_header(h, name, value);
    let i = if has_header(h, name) {
        position(h, name)
    } else {
        h.len() as int
    };
    assert(r[i] == (HeaderView { name: name, values: seq![value] }));
    assert(same_name(r[i].name, name));
}

/// A well-formed list has one header of a name at most, so to be without
/// the name is to be without that header.
pub proof fn lemma_without_header_is_remove(h: Seq<HeaderView>, name: Seq<u8>)
    requires
        well_formed(h),
    ensures
        without_header(h, name) == if has_header(h, name) {
            h.remove(position(h, name))
        } else {
            h
        },
    decreases h.len(),
{
    reveal(Seq::filter);
    if h.len() > 0 {
        let t = h.drop_last();
        let e = h.last();
        let n = h.len() - 1;
        assert(well_formed(t)) by {
            assert forall|i: int, j: int| 0 <= i < j < t.len() implies !same_name(
                #[trigger] t[i].name,
                #[trigger] t[j].name,
            ) by {
                assert(!same_name(h[i].name, h[j].name));
            }
            assert forall|i: int| 0 <= i < t.len() implies (#[trigger] t[i]).values.len() > 0 by {
                assert(h[i].values.len() > 0);
            }
        }
        lemma_without_header_is_remove(t, name);
        if same_name(e.name, name) {
            lemma_position_unique(h, name, n);
            assert(!has_header(t, name)) by {
                if has_header(t, name) {
                    let i = choose|i: int| 0 <= i < t.len() && same_name(#[trigger] t[i].name, name);
                    assert(!same_name(h[i].name, h[n].name));
                }
            }
            assert(h.remove(n) =~= t);
        } else if has_header(t, name) {
            let p = position(t, name);
            assert(same_name(h[p].name, name));
            lemma_position_unique(h, name, p);
            assert(h.remove(p) =~= t.remove(p).push(e));
        } else {
            assert(!has_header(h, name)) by {
                if has_header(h, name) {
                    let i = choose|i: int| 0 <= i < h.len() && same_name(#[trigger] h[i].name, name);
                    assert(same_name(t[i].name, name));
                }
            }
            assert(h =~= t.push(e));
        }
    }
}

/// A list without a name holds no header of that name.
pub proof fn lemma_without_header_removes(h: Seq<HeaderView>, name: Seq<u8>)
    ensures
        !has_header(without_header(h, name), name),
{
    let r = without_header(h, name);
    let keep = |e: HeaderView| !same_name(e.name, name);
    if has_header(r, name) {
        let i = choose|i: int| 0 <= i < r.len() && same_name(#[trigger] r[i].name, name);
        h.lemma_filter_pred(keep, i);
    }
}

/// A list without one name holds the headers of every other name.
pub proof fn lemma_without_header_keeps_entry(h: Seq<HeaderView>, name: Seq<u8>, x: HeaderView)
    requires
        h.contains(x),
        !same_name(name, x.name),
    ensures
        without_header(h, name).contains(x),
{
    let keep = |e: HeaderView| !same_name(e.name, name);
    let i = choose|i: int| 0 <= i < h.len() && h[i] == x;
    h.lemma_filter_contains(keep, i);
}

/// To take one name out neither brings nor removes a header of another
/// name.
pub proof fn lemma_without_header_keeps(h: Seq<HeaderView>, name: Seq<u8>, other: Seq<u8>)
    requires
        !same_name(name, other),
    ensures
        has_header(without_header(h, name), other) == has_header(h, other),
{
    let r = without_header(h, name);
    let keep = |e: HeaderView| !same_name(e.name, name);
    if has_header(h, other) {
        let i = choose|i: int| 0 <= i < h.len() && same_name(#[trigger] h[i].name, other);
        lemma_without_header_keeps_entry(h, name, h[i]);
        let j = choose|j: int| 0 <= j < r.len() && r[j] == h[i];
        assert(same_name(r[j].name, other));
    }
    if has_header(r, other) {
        let j = choose|j: int| 0 <= j < r.len() && same_name(#[trigger] r[j].name, other);
        assert(r.contains(r[j]));
        h.lemma_filter_contains_rev(keep, r[j]);
        let i = choose|i: int| 0 <= i < h.len() && h[i] == r[j];
        assert(same_name(h[i].name, other));
    }
}

/// A well-formed list without a name is well-formed.
pub proof fn lemma_without_header_well_formed(h: Seq<HeaderView>, name: Seq<u8>)
    requires
        well_formed(h),
    ensures
        well_formed(without_header(h, name)),
{
    lemma_without_header_is_remove(h, name);
    if has_header(h, name) {
        let p = position(h, name);
        let r = h.remove(p);
        assert forall|i: int, j: int| 0 <= i < j < r.len() implies !same_name(
            #[trigger] r[i].name,
            #[trigger] r[j].name,
        ) by {
            let a = if i < p {
                i
            } else {
                i + 1
            };
            let b = if j < p {
                j
            } else {
                j + 1
            };
            assert(r[i] == h[a] && r[j] == h[b]);
            assert(!same_name(h[a].name, h[b].name));
        }
        assert forall|i: int| 0 <= i < r.len() implies (#[trigger] r[i]).values.len() > 0 by {
            let a = if i < p {
                i
            } else {
                i + 1
            };
            assert(r[i] == h[a]);
        }
    }
}

/// Setting a header of one name neither brings nor removes a header of
/// another name.
pub proof fn lemma_with_header_keeps(
    h: Seq<HeaderView>,
    name: Seq<u8>,
    value: Seq<u8>,
    other: Seq<u8>,
)
    requires
        !same_name(name, other),
    ensures
        has_header(with_header(h, name, value), other) == has_header(h, other),
{
    let r = with_header(h, name, value);
    if has_header(h, other) {
        let i = choose|i: int| 0 <= i < h.len() && same_name(#[trigger] h[i].name, other);
        assert(same_name(r[i].name, other));
    }
    if has_header(r, other) {
        let i = choose|i: int| 0 <= i < r.len() && same_name(#[trigger] r[i].name, other);
        assert(same_name(h[i].name, other));
    }
}

/// Setting a header of one name leaves the headers of other names in the
/// list.
pub proof fn lemma_with_header_keeps_entry(
    h: Seq<HeaderView>,
    name: Seq<u8>,
    value: Seq<u8>,
    x: HeaderView,
)
    requires
        h.contains(x),
        !same_name(name, x.name),
    ensures
        with_header(h, name, value).contains(x),
{
    let r = with_header(h, name, value);
    let i = choose|i: int| 0 <= i < h.len() && h[i] == x;
    assert(r[i] == x);
}

/// A list with one more header, at any place, holds the names it held and
/// that of the new header.
pub proof fn lemma_insert_has(h: Seq<HeaderView>, p: int, e: HeaderView, name: Seq<u8>)
    requires
        0 <= p <= h.len(),
    ensures
        has_header(h.insert(p, e), name) == (has_header(h, name) || same_name(e.name, name)),
{
    let r = h.insert(p, e);
    assert(r.len() == h.len() + 1);
    assert(r[p] == e);
    if has_header(h, name) {
        let i = choose|i: int| 0 <= i < h.len() && same_name(#[trigger] h[i].name, name);
        if i < p {
            assert(same_name(r[i].name, name));
        } else {
            assert(r[i + 1] == h[i]);
            assert(same_name(r[i + 1].name, name));
        }
    }
    if same_name(e.name, name) {
        assert(same_name(r[p].name, name));
    }
    if has_header(r, name) {
        let i = choose|i: int| 0 <= i < r.len() && same_name(#[trigger] r[i].name, name);
        if i < p {
            assert(same_name(h[i].name, name));
        } else if i > p {
            assert(r[i] == h[i - 1]);
            assert(same_name(h[i - 1].name, name));
        }
    }
}

/// A well-formed list stays so with one more header, at any place, if the
/// header has a value and a name of its own.
pub proof fn lemma_insert_well_formed(h: Seq<HeaderView>, p: int, e: HeaderView)
    requires
        0 <= p <= h.len(),
        well_formed(h),
        !has_header(h, e.name),
        e.values.len() > 0,
    ensures
        well_formed(h.insert(p, e)),
{
    let r = h.insert(p, e);
    assert(r.len() == h.len() + 1);
    assert forall|i: int| 0 <= i < r.len() implies (#[trigger] r[i]).values.len() > 0 by {
        if i < p {
            assert(r[i] == h[i]);
        } else if i > p {
            assert(r[i] == h[i - 1]);
        }
    }
    assert forall|i: int, j: int| 0 <= i < j < r.len() implies !same_name(
        #[trigger] r[i].name,
        #[trigger] r[j].name,
    ) by {
        let a = if i < p {
            i
        } else {
            i - 1
        };
        let b = if j < p {
            j
        } else {
            j - 1
        };
        if i == p {
            assert(r[j] == h[b]);
            assert(!same_name(h[b].name, e.name));
        } else if j == p {
            assert(r[i] == h[a]);
            assert(!same_name(h[a].name, e.name));
        } else {
            assert(r[i] == h[a] && r[j] == h[b]);
            assert(!same_name(h[a].name, h[b].name));
        }
    }
}

/// Two lists that hold the same headers, in whatever order, hold the same
/// names.
pub proof fn lemma_has_header_permuted(h1: Seq<HeaderView>, h2: Seq<HeaderView>, name: Seq<u8>)
    requires
        h1.to_multiset() == h2.to_multiset(),
    ensures
        has_header(h1, name) == has_header(h2, name),
{
    broadcast use vstd::seq_lib::group_to_multiset_ensures;

    if has_header(h1, name) {
        let i = choose|i: int| 0 <= i < h1.len() && same_name(#[trigger] h1[i].name, name);
        assert(h1.contains(h1[i]));
        assert(h2.to_multiset().count(h1[i]) > 0);
        assert(h2.contains(h1[i]));
        let j = choose|j: int| 0 <= j < h2.len() && h2[j] == h1[i];
        assert(same_name(h2[j].name, name));
    }
    if has_header(h2, name) {
        let i = choose|i: int| 0 <= i < h2.len() && same_name(#[trigger] h2[i].name, name);
        assert(h2.contains(h2[i]));
        assert(h1.to_multiset().count(h2[i]) > 0);
        assert(h1.contains(h2[i]));
        let j = choose|j: int| 0 <= j < h1.len() && h1[j] == h2[i];
        assert(same_name(h1[j].name, name));
    }
}

/// Setting a header in two lists that hold the same headers leaves two lists
/// that hold the same headers.
pub proof fn lemma_with_header_permuted(
    h1: Seq<HeaderView>,
    h2: Seq<HeaderView>,
    name: Seq<u8>,
    value: Seq<u8>,
)
    requires
        well_formed(h1),
        well_formed(h2),
        h1.to_multiset() == h2.to_multiset(),
    ensures
        with_header(h1, name, value).to_multiset() == with_header(h2, name, value).to_multiset(),
{
    broadcast use vstd::seq_lib::group_to_multiset_ensures;

    lemma_has_header_permuted(h1, h2, name);
    if has_header(h1, name) {
        let at = position(h1, name);
        let there = position(h2, name);
        assert(h1.contains(h1[at]));
        assert(h2.to_multiset().count(h1[at]) > 0);
        assert(h2.contains(h1[at]));
        let j = choose|j: int| 0 <= j < h2.len() && h2[j] == h1[at];
        lemma_position_unique(h2, name, j);
        assert(h2[there] == h1[at]);
    }
}

/// Taking a name out of two lists that hold the same headers leaves two
/// lists that hold the same headers.
pub proof fn lemma_without_header_permuted(
    h1: Seq<HeaderView>,
    h2: Seq<HeaderView>,
    name: Seq<u8>,
)
    requires
        well_formed(h1),
        well_formed(h2),
        h1.to_multiset() == h2.to_multiset(),
    ensures
        without_header(h1, name).to_multiset() == without_header(h2, name).to_multiset(),
{
    broadcast use vstd::seq_lib::group_to_multiset_ensures;

    lemma_has_header_permuted(h1, h2, name);
    lemma_without_header_is_remove(h1, name);
    lemma_without_header_is_remove(h2, name);
    if has_header(h1, name) {
        let at = position(h1, name);
        let there = position(h2, name);
        assert(h1.contains(h1[at]));
        assert(h2.to_multiset().count(h1[at]) > 0);
        assert(h2.contains(h1[at]));
        let j = choose|j: int| 0 <= j < h2.len() && h2[j] == h1[at];
        lemma_position_unique(h2, name, j);
        assert(h2[there] == h1[at]);
    }
}

/// The headers of a request. Names are told apart without regard to ASCII
/// case and are kept as they were written; the headers stand in the order in
/// which their names first came.
#[derive(Debug)]
pub struct Headers {
    entries: Vec<Header>,
}

impl View for Headers {
    type V = Seq<HeaderView>;

    closed spec fn view(&self) -> Seq<HeaderView> {
        Seq::new(self.entries@.len(), |i: int| self.entries@[i]@)
    }
}

impl Headers {
    #[verifier::type_invariant]
    pub open spec fn inv(self) -> bool {
        well_formed(self@)
    }

    /// No headers.
    pub fn new() -> (r: Headers)
        ensures
            r@ == Seq::<HeaderView>::empty(),
    {
        let r = Headers { entries: Vec::new() };
        assert(r@ =~= Seq::<HeaderView>::empty());
        r
    }

    /// The number of names.
    pub fn len(&self) -> (n: usize)
        ensures
            n == self@.len(),
    {
        self.entries.len()
    }

    /// The header at place `i`.
    pub fn get(&self, i: usize) -> (r: &Header)
        requires
            i < self@.len(),
        ensures
            r@ == self@[i as int],
    {
        &self.entries[i]
    }

    /// Where the header that goes by `name` stands, if there is one.
    pub fn find(&self, name: &[u8]) -> (r: Option<usize>)
        ensures
            match r {
                Some(i) => has_header(self@, name@) && i == position(self@, name@) && i
                    < self@.len(),
                None => !has_header(self@, name@),
            },
    {
        proof {
            use_type_invariant(self);
        }
        let mut i: usize = 0;
        while i < self.entries.len()
            invariant
                i <= self.entries@.len(),
                well_formed(self@),
                forall|j: int| 0 <= j < i ==> !same_name(#[trigger] self@[j].name, name@),
            decreases self.entries@.len() - i,
        {
            if eq_ignore_case(self.entries[i].name.as_slice(), name) {
                proof {
                    lemma_position_unique(self@, name@, i as int);
                }
                return Some(i);
            }
            i += 1;
        }
        None
    }

    /// Whether a header goes by `name`.
    pub fn contains(&self, name: &[u8]) -> (r: bool)
        ensures
            r == has_header(self@, name@),
    {
        self.find(name).is_some()
    }

    /// Sets `name` to the single value `value`, in place of what stood under
    /// that name.
    pub fn insert(&mut self, name: Vec<u8>, value: Vec<u8>)
        ensures
            final(self)@ == with_header(old(self)@, name@, value@),
    {
        proof {
            use_type_invariant(&*self);
            lemma_with_header_well_formed(self@, name@, value@);
        }
        let found = self.find(name.as_slice());
        let mut values: Vec<Vec<u8>> = Vec::new();
        values.push(value);
        let header = Header { name: name, values: values };
        assert(header@.values =~= seq![value@]);
        let mut entries: Vec<Header> = Vec::new();
        core::mem::swap(&mut self.entries, &mut entries);
        match found {
            Some(i) => {
                entries.set(i, header);
            },
            None => {
                entries.push(header);
            },
        }
        assert(Seq::new(entries@.len(), |i: int| entries@[i]@) =~= with_header(
            old(self)@,
            name@,
            value@,
        ));
        self.entries = entries;
    }

    /// Adds `value` under `name`, after the values that stand there.
    pub fn append(&mut self, name: Vec<u8>, value: Vec<u8>)
        ensures
            final(self)@ == with_value(old(self)@, name@, value@),
    {
        proof {
            use_type_invariant(&*self);
            lemma_with_value_well_formed(self@, name@, value@);
        }
        let found = self.find(name.as_slice());
        let mut entries: Vec<Header> = Vec::new();
        core::mem::swap(&mut self.entries, &mut entries);
        match found {
            Some(i) => {
                let mut header = entries.remove(i);
                header.values.push(value);
                assert(header@.values =~= old(self)@[i as int].values.push(value@));
                entries.insert(i, header);
            },
            None => {
                let mut values: Vec<Vec<u8>> = Vec::new();
                values.push(value);
                let header = Header { name: name, values: values };
                assert(header@.values =~= seq![value@]);
                entries.push(header);
            },
        }
        assert(Seq::new(entries@.len(), |i: int| entries@[i]@) =~= with_value(
            old(self)@,
            name@,
            value@,
        ));
        self.entries = entries;
    }

    /// Takes out the header that goes by `name`, if there is one, and hands
    /// it back. The other headers stay in their order.
    pub fn remove(&mut self, name: &[u8]) -> (r: Option<Header>)
        ensures
            final(self)@ == without_header(old(self)@, name@),
            match r {
                Some(header) => has_header(old(self)@, name@) && header@ == old(self)@[position(
                    old(self)@,
                    name@,
                )],
                None => !has_header(old(self)@, name@),
            },
    {
        proof {
            use_type_invariant(&*self);
            lemma_without_header_is_remove(self@, name@);
            lemma_without_header_well_formed(self@, name@);
        }
        match self.find(name) {
            Some(i) => {
                let mut entries: Vec<Header> = Vec::new();
                core::mem::swap(&mut self.entries, &mut entries);
                let header = entries.remove(i);
                assert(Seq::new(entries@.len(), |i: int| entries@[i]@) =~= old(self)@.remove(
                    i as int,
                ));
                self.entries = entries;
                Some(header)
            },
            None => None,
        }
    }
}

} // verus!

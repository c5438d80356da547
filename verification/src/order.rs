//! The order in which headers go on the wire: `host` first, the others by
//! name without regard to ASCII case, and headers of equal rank in the order
//! in which they were stored.

use crate::headers::{
    has_header, lemma_insert_has, lemma_insert_well_formed, well_formed, Header, HeaderView,
    Headers,
};
use crate::text::{
    eq_ignore_case, folded, le_ignore_case, lemma_lex_le_antisym, lemma_lex_le_total,
    lemma_lex_le_trans, name_le, same_name,
};
use vstd::prelude::*;
use vstd::string::*;

verus! {

/// The name of the header that leads the others.
pub open spec fn host_name() -> Seq<u8> {
    "host".spec_bytes()
}

/// Whether `name` is that of the `host` header, in any case.
pub open spec fn is_host(name: Seq<u8>) -> bool {
    same_name(name, host_name())
}

/// Whether a header named `a` may stand before one named `b`: `host` may
/// stand before any name, no other name before `host`, and of two other names
/// the one that is no greater.
pub open spec fn may_precede(a: Seq<u8>, b: Seq<u8>) -> bool {
    if is_host(a) {
        true
    } else if is_host(b) {
        false
    } else {
        name_le(a, b)
    }
}

/// An ordered list with one more header: it goes behind every header that may
/// precede it, and before the rest.
pub open spec fn placed(s: Seq<HeaderView>, e: HeaderView) -> Seq<HeaderView>
    decreases s.len(),
{
    if s.len() == 0 {
        seq![e]
    } else if may_precede(s.last().name, e.name) {
        s.push(e)
    } else {
        placed(s.drop_last(), e).push(s.last())
    }
}

/// The headers in the order in which they go on the wire.
pub open spec fn wire_order(h: Seq<HeaderView>) -> Seq<HeaderView>
    decreases h.len(),
{
    if h.len() == 0 {
        Seq::empty()
    } else {
        placed(wire_order(h.drop_last()), h.last())
    }
}

/// Each header of the list may precede all that follow it.
pub open spec fn ordered(s: Seq<HeaderView>) -> bool {
    forall|i: int, j: int|
        0 <= i < j < s.len() ==> may_precede((#[trigger] s[i]).name, (#[trigger] s[j]).name)
}

/// What the headers behind a list of references hold.
pub open spec fn views(s: Seq<&Header>) -> Seq<HeaderView> {
    Seq::new(s.len(), |i: int| s[i]@)
}

/// Of any two names, one may precede the other.
pub proof fn lemma_may_precede_total(a: Seq<u8>, b: Seq<u8>)
    ensures
        may_precede(a, b) || may_precede(b, a),
{
    lemma_lex_le_total(folded(a), folded(b));
}

/// Preceding carries over a name in the middle.
pub proof fn lemma_may_precede_trans(a: Seq<u8>, b: Seq<u8>, c: Seq<u8>)
    requires
        may_precede(a, b),
        may_precede(b, c),
    ensures
        may_precede(a, c),
{
    if !is_host(a) && !is_host(b) && !is_host(c) {
        lemma_lex_le_trans(folded(a), folded(b), folded(c));
    }
}

/// Two names of which each may precede the other are the same name.
pub proof fn lemma_may_precede_antisym(a: Seq<u8>, b: Seq<u8>)
    requires
        may_precede(a, b),
        may_precede(b, a),
    ensures
        same_name(a, b),
{
    if !is_host(a) && !is_host(b) {
        lemma_lex_le_antisym(folded(a), folded(b));
    }
}

/// Where `e` comes to stand in `s`: behind the first `p` headers, when the
/// header before that place may precede `e` and none from that place on may.
pub proof fn lemma_placed_at(s: Seq<HeaderView>, e: HeaderView, p: int)
    requires
        0 <= p <= s.len(),
        p > 0 ==> may_precede(s[p - 1].name, e.name),
        forall|j: int| p <= j < s.len() ==> !may_precede((#[trigger] s[j]).name, e.name),
    ensures
        placed(s, e) == s.insert(p, e),
    decreases s.len() - p,
{
    if s.len() == 0 {
        assert(s.insert(p, e) =~= seq![e]);
    } else if p == s.len() {
        assert(s.insert(p, e) =~= s.push(e));
    } else {
        let t = s.drop_last();
        assert(!may_precede(s[s.len() - 1].name, e.name));
        lemma_placed_at(t, e, p);
        assert(t.insert(p, e).push(s.last()) =~= s.insert(p, e));
    }
}

/// Placing a header keeps the list's headers and adds the one.
pub proof fn lemma_placed_multiset(s: Seq<HeaderView>, e: HeaderView)
    ensures
        placed(s, e).to_multiset() == s.to_multiset().insert(e),
        placed(s, e).len() == s.len() + 1,
    decreases s.len(),
{
    broadcast use vstd::seq_lib::group_to_multiset_ensures;

    if s.len() == 0 {
        assert(seq![e] =~= Seq::<HeaderView>::empty().push(e));
        assert(s =~= Seq::<HeaderView>::empty());
    } else if may_precede(s.last().name, e.name) {
    } else {
        let t = s.drop_last();
        lemma_placed_multiset(t, e);
        assert(s =~= t.push(s.last()));
        assert(placed(s, e).to_multiset() =~= s.to_multiset().insert(e));
    }
}

/// Placing a header into an ordered list leaves it ordered.
pub proof fn lemma_placed_ordered(s: Seq<HeaderView>, e: HeaderView)
    requires
        ordered(s),
    ensures
        ordered(placed(s, e)),
        placed(s, e).len() == s.len() + 1,
        forall|k: int|
            0 <= k < placed(s, e).len() ==> (#[trigger] placed(s, e)[k]) == e || exists|m: int|
                0 <= m < s.len() && s[m] == placed(s, e)[k],
    decreases s.len(),
{
    let r = placed(s, e);
    if s.len() == 0 {
    } else if may_precede(s.last().name, e.name) {
        assert forall|i: int, j: int| 0 <= i < j < r.len() implies may_precede(
            (#[trigger] r[i]).name,
            (#[trigger] r[j]).name,
        ) by {
            if j == s.len() {
                if i < s.len() - 1 {
                    assert(may_precede(s[i].name, s[s.len() - 1].name));
                    lemma_may_precede_trans(s[i].name, s.last().name, e.name);
                }
            } else {
                assert(may_precede(s[i].name, s[j].name));
            }
        }
        assert forall|k: int| 0 <= k < r.len() implies (#[trigger] r[k]) == e || exists|m: int|
            0 <= m < s.len() && s[m] == r[k] by {
            if k < s.len() {
                assert(s[k] == r[k]);
            }
        }
    } else {
        let t = s.drop_last();
        assert(ordered(t)) by {
            assert forall|i: int, j: int| 0 <= i < j < t.len() implies may_precede(
                (#[trigger] t[i]).name,
                (#[trigger] t[j]).name,
            ) by {
                assert(may_precede(s[i].name, s[j].name));
            }
        }
        lemma_placed_ordered(t, e);
        let q = placed(t, e);
        lemma_may_precede_total(s.last().name, e.name);
        assert forall|i: int, j: int| 0 <= i < j < r.len() implies may_precede(
            (#[trigger] r[i]).name,
            (#[trigger] r[j]).name,
        ) by {
            if j < q.len() {
                assert(may_precede(q[i].name, q[j].name));
            } else {
                if q[i] == e {
                } else {
                    let m = choose|m: int| 0 <= m < t.len() && t[m] == q[i];
                    assert(may_precede(s[m].name, s[s.len() - 1].name));
                }
            }
        }
        assert forall|k: int| 0 <= k < r.len() implies (#[trigger] r[k]) == e || exists|m: int|
            0 <= m < s.len() && s[m] == r[k] by {
            if k < q.len() {
                if q[k] != e {
                    let m = choose|m: int| 0 <= m < t.len() && t[m] == q[k];
                    assert(s[m] == r[k]);
                }
            } else {
                assert(s[s.len() - 1] == r[k]);
            }
        }
    }
}

/// The wire order holds the same headers as the list it orders, each as often.
pub proof fn lemma_wire_order_permutes(h: Seq<HeaderView>)
    ensures
        wire_order(h).to_multiset() == h.to_multiset(),
        wire_order(h).len() == h.len(),
    decreases h.len(),
{
    broadcast use vstd::seq_lib::group_to_multiset_ensures;

    if h.len() == 0 {
        assert(h =~= Seq::<HeaderView>::empty());
    } else {
        let t = h.drop_last();
        lemma_wire_order_permutes(t);
        lemma_placed_multiset(wire_order(t), h.last());
        assert(h =~= t.push(h.last()));
    }
}

/// In the wire order each header may precede all that follow it.
pub proof fn lemma_wire_order_ordered(h: Seq<HeaderView>)
    ensures
        ordered(wire_order(h)),
    decreases h.len(),
{
    if h.len() > 0 {
        lemma_wire_order_ordered(h.drop_last());
        lemma_placed_ordered(wire_order(h.drop_last()), h.last());
    }
}

/// Placing a header puts it somewhere into the list and moves nothing else.
pub proof fn lemma_placed_is_insert(s: Seq<HeaderView>, e: HeaderView) -> (p: int)
    ensures
        0 <= p <= s.len(),
        placed(s, e) == s.insert(p, e),
    decreases s.len(),
{
    if s.len() == 0 {
        assert(s.insert(0, e) =~= seq![e]);
        0
    } else if may_precede(s.last().name, e.name) {
        assert(s.insert(s.len() as int, e) =~= s.push(e));
        s.len() as int
    } else {
        let t = s.drop_last();
        let p = lemma_placed_is_insert(t, e);
        assert(t.insert(p, e).push(s.last()) =~= s.insert(p, e));
        p
    }
}

/// The wire order holds a name if and only if the list it orders does.
pub proof fn lemma_wire_order_has(h: Seq<HeaderView>, name: Seq<u8>)
    ensures
        has_header(wire_order(h), name) == has_header(h, name),
    decreases h.len(),
{
    if h.len() == 0 {
    } else {
        let t = h.drop_last();
        let e = h.last();
        lemma_wire_order_has(t, name);
        let p = lemma_placed_is_insert(wire_order(t), e);
        lemma_insert_has(wire_order(t), p, e, name);
        assert(h =~= t.insert(t.len() as int, e));
        lemma_insert_has(t, t.len() as int, e, name);
    }
}

/// The wire order of a well-formed list is well-formed.
pub proof fn lemma_wire_order_well_formed(h: Seq<HeaderView>)
    requires
        well_formed(h),
    ensures
        well_formed(wire_order(h)),
    decreases h.len(),
{
    if h.len() == 0 {
    } else {
        let t = h.drop_last();
        let e = h.last();
        assert(well_formed(t)) by {
            assert forall|i: int, j: int| 0 <= i < j < t.len() implies !same_name(
                #[trigger] t[i].name,
                #[trigger] t[j].name,
            ) by {
                assert(!same_name(h[i].name, h[j].name));
            }
            assert forall|i: int| 0 <= i < t.len() implies (#[trigger] t[i]).values.len() > 0 by {
                assert(h[i].values.len() > 0);
            }
        }
        lemma_wire_order_well_formed(t);
        assert(!has_header(t, e.name)) by {
            if has_header(t, e.name) {
                let i = choose|i: int| 0 <= i < t.len() && same_name(#[trigger] t[i].name, e.name);
                assert(!same_name(h[i].name, h[h.len() - 1].name));
            }
        }
        lemma_wire_order_has(t, e.name);
        let p = lemma_placed_is_insert(wire_order(t), e);
        assert(h[h.len() - 1].values.len() > 0);
        lemma_insert_well_formed(wire_order(t), p, e);
    }
}

/// Where there is a `host` header, it leads the wire order.
pub proof fn lemma_host_leads(h: Seq<HeaderView>)
    requires
        has_header(h, host_name()),
    ensures
        wire_order(h).len() > 0,
        is_host(wire_order(h)[0].name),
{
    let o = wire_order(h);
    lemma_wire_order_has(h, host_name());
    lemma_wire_order_ordered(h);
    let k = choose|k: int| 0 <= k < o.len() && same_name(#[trigger] o[k].name, host_name());
    if k > 0 {
        assert(may_precede(o[0].name, o[k].name));
    }
}

/// In the wire order of a well-formed list no header but the first is a
/// `host` header.
pub proof fn lemma_host_once(h: Seq<HeaderView>)
    requires
        well_formed(h),
        has_header(h, host_name()),
    ensures
        forall|i: int| 0 < i < wire_order(h).len() ==> !is_host(#[trigger] wire_order(h)[i].name),
{
    let o = wire_order(h);
    lemma_host_leads(h);
    lemma_wire_order_well_formed(h);
    assert forall|i: int| 0 < i < o.len() implies !is_host(#[trigger] o[i].name) by {
        assert(!same_name(o[0].name, o[i].name));
    }
}

/// Headers under different names can be put in order in one way only.
pub proof fn lemma_ordered_unique(a: Seq<HeaderView>, b: Seq<HeaderView>)
    requires
        well_formed(a),
        ordered(a),
        ordered(b),
        a.to_multiset() == b.to_multiset(),
    ensures
        a == b,
    decreases a.len(),
{
    broadcast use vstd::seq_lib::group_to_multiset_ensures;
    broadcast use vstd::multiset::group_multiset_axioms;

    assert(a.len() == b.len()) by {
        vstd::seq_lib::to_multiset_len(a);
        vstd::seq_lib::to_multiset_len(b);
    }
    if a.len() == 0 {
        assert(a =~= b);
    } else {
        let n = a.len() - 1;
        let x = a[n];
        let y = b[n];
        assert(b.contains(y));
        assert(a.to_multiset().count(y) > 0);
        assert(a.contains(y));
        let k = choose|k: int| 0 <= k < a.len() && a[k] == y;
        assert(a.contains(x));
        assert(b.to_multiset().count(x) > 0);
        assert(b.contains(x));
        let m = choose|m: int| 0 <= m < b.len() && b[m] == x;
        if k != n && m != n {
            assert(may_precede(a[k].name, a[n].name));
            assert(may_precede(b[m].name, b[n].name));
            lemma_may_precede_antisym(x.name, y.name);
            assert(!same_name(a[k].name, a[n].name));
        }
        assert(x == y);
        let a1 = a.drop_last();
        let b1 = b.drop_last();
        assert(a =~= a1.push(x));
        assert(b =~= b1.push(x));
        assert(a1.push(x).to_multiset() =~= a1.to_multiset().insert(x));
        assert(b1.push(x).to_multiset() =~= b1.to_multiset().insert(x));
        assert(a1.to_multiset() =~= b1.to_multiset()) by {
            assert forall|v: HeaderView| a1.to_multiset().count(v) == b1.to_multiset().count(
                v,
            ) by {
                assert(a1.to_multiset().insert(x).count(v) == b1.to_multiset().insert(x).count(v));
            }
        }
        assert(well_formed(a1)) by {
            assert forall|i: int, j: int| 0 <= i < j < a1.len() implies !same_name(
                #[trigger] a1[i].name,
                #[trigger] a1[j].name,
            ) by {
                assert(!same_name(a[i].name, a[j].name));
            }
            assert forall|i: int| 0 <= i < a1.len() implies (#[trigger] a1[i]).values.len()
                > 0 by {
                assert(a[i].values.len() > 0);
            }
        }
        assert(ordered(a1)) by {
            assert forall|i: int, j: int| 0 <= i < j < a1.len() implies may_precede(
                (#[trigger] a1[i]).name,
                (#[trigger] a1[j]).name,
            ) by {
                assert(may_precede(a[i].name, a[j].name));
            }
        }
        assert(ordered(b1)) by {
            assert forall|i: int, j: int| 0 <= i < j < b1.len() implies may_precede(
                (#[trigger] b1[i]).name,
                (#[trigger] b1[j]).name,
            ) by {
                assert(may_precede(b[i].name, b[j].name));
            }
        }
        lemma_ordered_unique(a1, b1);
    }
}

/// The wire order of a well-formed list is the one list that holds the same
/// headers and in which each may precede all that follow it.
pub proof fn lemma_wire_order_unique(h: Seq<HeaderView>, s: Seq<HeaderView>)
    requires
        well_formed(h),
        ordered(s),
        s.to_multiset() == h.to_multiset(),
    ensures
        s == wire_order(h),
{
    lemma_wire_order_permutes(h);
    lemma_wire_order_ordered(h);
    lemma_wire_order_well_formed(h);
    lemma_ordered_unique(wire_order(h), s);
}

/// The wire order of a well-formed list does not depend on the order in
/// which the list holds its headers.
pub proof fn lemma_wire_order_ignores_order(h1: Seq<HeaderView>, h2: Seq<HeaderView>)
    requires
        well_formed(h1),
        h1.to_multiset() == h2.to_multiset(),
    ensures
        wire_order(h1) == wire_order(h2),
{
    lemma_wire_order_permutes(h2);
    lemma_wire_order_ordered(h2);
    lemma_wire_order_unique(h1, wire_order(h2));
}

/// Whether the header `a` may stand before the header `b` on the wire.
pub fn precedes(a: &Header, b: &Header) -> (r: bool)
    ensures
        r == may_precede(a@.name, b@.name),
{
    if eq_ignore_case(a.name.as_slice(), "host".as_bytes()) {
        true
    } else if eq_ignore_case(b.name.as_slice(), "host".as_bytes()) {
        false
    } else {
        le_ignore_case(a.name.as_slice(), b.name.as_slice())
    }
}

/// The headers in the order in which they go on the wire.
pub fn in_wire_order<'a>(headers: &'a Headers) -> (r: Vec<&'a Header>)
    ensures
        views(r@) == wire_order(headers@),
{
    let mut sorted: Vec<&'a Header> = Vec::new();
    let n: usize = headers.len();
    let mut i: usize = 0;
    assert(headers@.take(0) =~= Seq::<HeaderView>::empty());
    assert(views(sorted@) =~= Seq::<HeaderView>::empty());
    while i < n
        invariant
            i <= n,
            n == headers@.len(),
            views(sorted@) == wire_order(headers@.take(i as int)),
        decreases n - i,
    {
        let header: &'a Header = headers.get(i);
        let mut p: usize = sorted.len();
        while p > 0 && !precedes(sorted[p - 1], header)
            invariant
                p <= sorted@.len(),
                forall|j: int|
                    p <= j < sorted@.len() ==> !may_precede(
                        (#[trigger] views(sorted@)[j]).name,
                        header@.name,
                    ),
            decreases p,
        {
            p -= 1;
        }
        proof {
            let before = views(sorted@);
            lemma_placed_at(before, header@, p as int);
            assert(headers@.take(i + 1).drop_last() =~= headers@.take(i as int));
            assert(headers@.take(i + 1).last() == header@);
            assert(views(sorted@.insert(p as int, header)) =~= before.insert(p as int, header@));
        }
        sorted.insert(p, header);
        i += 1;
    }
    assert(headers@.take(n as int) =~= headers@);
    sorted
}

} // verus!

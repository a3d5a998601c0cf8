//! Sets of alternatives, given by their identifiers.

use vstd::prelude::*;

verus! {

/// Whether identifiers stand in ascending order, each once.
pub open spec fn ascending(s: Seq<u64>) -> bool {
    forall|i: int, j: int| 0 <= i < j < s.len() ==> s[i] < s[j]
}

/// Whether `p` is the place of an identifier among ascending ones.
pub open spec fn is_id_place(s: Seq<u64>, id: u64, p: int) -> bool {
    &&& 0 <= p <= s.len()
    &&& forall|i: int| 0 <= i < p ==> s[i] < id
    &&& forall|i: int| p <= i < s.len() ==> id <= s[i]
}

/// Whether `n` is the normal form of some identifiers: the same ones in ascending
/// order, each once.
pub open spec fn is_normal_form(n: Seq<u64>, s: Seq<u64>) -> bool {
    &&& ascending(n)
    &&& forall|id: u64| n.contains(id) <==> s.contains(id)
}

/// The normal form of some identifiers.
pub open spec fn normal_form(s: Seq<u64>) -> Seq<u64> {
    choose|n: Seq<u64>| is_normal_form(n, s)
}

/// Identifiers have only one normal form.
pub proof fn normal_form_is_unique(n: Seq<u64>, s: Seq<u64>)
    requires
        is_normal_form(n, s),
    ensures
        normal_form(s) == n,
{
    lemma_same_members(n, normal_form(s));
}

/// Two ascending sequences with the same members are equal.
proof fn lemma_same_members(a: Seq<u64>, b: Seq<u64>)
    requires
        ascending(a),
        ascending(b),
        forall|id: u64| a.contains(id) <==> b.contains(id),
    ensures
        a == b,
    decreases a.len(),
{
    if a.len() == 0 {
        if b.len() > 0 {
            assert(b.contains(b[0]));
        }
        assert(a =~= b);
    } else {
        assert(a.contains(a.last()));
        let k = choose|k: int| 0 <= k < b.len() && b[k] == a.last();
        assert(a.contains(b.last())) by {
            assert(b.contains(b.last()));
        }
        let l = choose|l: int| 0 <= l < a.len() && a[l] == b.last();
        assert(b.last() == a.last());
        let a2 = a.drop_last();
        let b2 = b.drop_last();
        assert forall|id: u64| a2.contains(id) <==> b2.contains(id) by {
            if a2.contains(id) {
                let i = choose|i: int| 0 <= i < a2.len() && a2[i] == id;
                assert(a[i] == id);
                assert(b.contains(id));
                let j = choose|j: int| 0 <= j < b.len() && b[j] == id;
                assert(b2[j] == id);
            }
            if b2.contains(id) {
                let i = choose|i: int| 0 <= i < b2.len() && b2[i] == id;
                assert(b[i] == id);
                assert(a.contains(id));
                let j = choose|j: int| 0 <= j < a.len() && a[j] == id;
                assert(a2[j] == id);
            }
        }
        lemma_same_members(a2, b2);
        assert(a =~= a2.push(a.last()));
        assert(b =~= b2.push(b.last()));
    }
}

/// All identifiers have a normal form.
pub proof fn normal_form_exists(s: Seq<u64>)
    ensures
        is_normal_form(normal_form(s), s),
    decreases s.len(),
{
    if s.len() == 0 {
        assert(is_normal_form(Seq::<u64>::empty(), s));
    } else {
        let front = s.drop_last();
        normal_form_exists(front);
        let n = normal_form(front);
        assert forall|id: u64| s.contains(id) <==> front.contains(id) || id == s.last() by {
            if s.contains(id) {
                let i = choose|i: int| 0 <= i < s.len() && s[i] == id;
                if i < front.len() {
                    assert(front[i] == id);
                }
            }
            if front.contains(id) {
                let i = choose|i: int| 0 <= i < front.len() && front[i] == id;
                assert(s[i] == id);
            }
            assert(s.contains(s.last()));
        }
        if n.contains(s.last()) {
            assert(is_normal_form(n, s));
        } else {
            let p = lemma_id_place(n, s.last());
            lemma_insert_id(n, s.last(), p);
            assert(is_normal_form(n.insert(p, s.last()), s));
        }
    }
}

proof fn lemma_id_place(s: Seq<u64>, id: u64) -> (p: int)
    requires
        ascending(s),
    ensures
        is_id_place(s, id, p),
    decreases s.len(),
{
    if s.len() == 0 {
        0
    } else if s.last() < id {
        s.len() as int
    } else {
        let p = lemma_id_place(s.drop_last(), id);
        assert forall|i: int| 0 <= i < p implies s[i] < id by {
            assert(s.drop_last()[i] == s[i]);
        }
        assert forall|i: int| p <= i < s.len() implies id <= s[i] by {
            if i < s.len() - 1 {
                assert(s.drop_last()[i] == s[i]);
            }
        }
        p
    }
}

proof fn lemma_insert_id(s: Seq<u64>, id: u64, p: int)
    requires
        ascending(s),
        is_id_place(s, id, p),
        !s.contains(id),
    ensures
        ascending(s.insert(p, id)),
        forall|x: u64| s.insert(p, id).contains(x) <==> s.contains(x) || x == id,
{
    let t = s.insert(p, id);
    assert forall|i: int, j: int| 0 <= i < j < t.len() implies t[i] < t[j] by {
        if i == p {
            assert(s.contains(s[j - 1]));
        }
    }
    assert forall|x: u64| t.contains(x) <==> s.contains(x) || x == id by {
        if t.contains(x) {
            let i = choose|i: int| 0 <= i < t.len() && t[i] == x;
            if i < p {
                assert(s[i] == x);
            } else if i > p {
                assert(s[i - 1] == x);
            }
        }
        if s.contains(x) {
            let i = choose|i: int| 0 <= i < s.len() && s[i] == x;
            if i < p {
                assert(t[i] == x);
            } else {
                assert(t[i + 1] == x);
            }
        }
        assert(t[p] == id);
    }
}

/// Brings identifiers into their normal form.
pub fn normalized_ids(ids: &Vec<u64>) -> (normal: Vec<u64>)
    ensures
        normal@ == normal_form(ids@),
        is_normal_form(normal@, ids@),
{
    let mut normal: Vec<u64> = Vec::new();
    let mut k: usize = 0;
    while k < ids.len()
        invariant
            k <= ids@.len(),
            is_normal_form(normal@, ids@.take(k as int)),
        decreases ids@.len() - k,
    {
        let id: u64 = ids[k];
        let mut low: usize = 0;
        let mut high: usize = normal.len();
        while low < high
            invariant
                low <= high <= normal@.len(),
                ascending(normal@),
                forall|i: int| 0 <= i < low ==> normal@[i] < id,
                forall|i: int| high <= i < normal@.len() ==> id <= normal@[i],
            decreases high - low,
        {
            let mid: usize = low + (high - low) / 2;
            if normal[mid] < id {
                low = mid + 1;
            } else {
                high = mid;
            }
        }
        let ghost before = normal@;
        let ghost seen = ids@.take(k as int);
        let ghost more = ids@.take(k + 1);
        proof {
            assert(more =~= seen.push(id));
            assert forall|x: u64| more.contains(x) <==> seen.contains(x) || x == id by {
                if more.contains(x) {
                    let i = choose|i: int| 0 <= i < more.len() && more[i] == x;
                    if i < k {
                        assert(seen[i] == x);
                    }
                }
                if seen.contains(x) {
                    let i = choose|i: int| 0 <= i < seen.len() && seen[i] == x;
                    assert(more[i] == x);
                }
                assert(more[k as int] == id);
            }
        }
        if low == normal.len() || normal[low] != id {
            proof {
                if before.contains(id) {
                    let i = choose|i: int| 0 <= i < before.len() && before[i] == id;
                    assert(before[low as int] <= before[i]);
                }
                lemma_insert_id(before, id, low as int);
            }
            normal.insert(low, id);
        } else {
            proof {
                assert(before.contains(before[low as int]));
            }
        }
        k = k + 1;
    }
    proof {
        assert(ids@.take(k as int) =~= ids@);
        normal_form_is_unique(normal@, ids@);
    }
    normal
}

/// Bringing identifiers into their normal form twice is doing it once.
pub proof fn normal_form_is_idempotent(s: Seq<u64>)
    ensures
        normal_form(normal_form(s)) == normal_form(s),
{
    normal_form_exists(s);
    normal_form_is_unique(normal_form(s), normal_form(s));
}

/// The normal form depends neither on the order of the identifiers nor on how often
/// each occurs.
pub proof fn normal_form_forgets_order_and_repetition(s: Seq<u64>, t: Seq<u64>)
    ensures
        (forall|id: u64| s.contains(id) <==> t.contains(id)) <==> normal_form(s) == normal_form(t),
{
    normal_form_exists(s);
    normal_form_exists(t);
    if forall|id: u64| s.contains(id) <==> t.contains(id) {
        normal_form_is_unique(normal_form(s), t);
    }
    if normal_form(s) == normal_form(t) {
        assert forall|id: u64| s.contains(id) <==> t.contains(id) by {
            assert(normal_form(s).contains(id) <==> s.contains(id));
            assert(normal_form(t).contains(id) <==> t.contains(id));
        }
    }
}

/// Copies identifiers.
pub fn copied_ids(ids: &Vec<u64>) -> (copy: Vec<u64>)
    ensures
        copy@ == ids@,
{
    let copy = ids.clone();
    proof {
        assert(copy@ =~= ids@);
    }
    copy
}

/// Whether two lists of identifiers are the same.
pub fn same_ids(a: &Vec<u64>, b: &Vec<u64>) -> (same: bool)
    ensures
        same == (a@ == b@),
{
    if a.len() != b.len() {
        return false;
    }
    let mut i: usize = 0;
    while i < a.len()
        invariant
            i <= a@.len(),
            a@.len() == b@.len(),
            forall|k: int| 0 <= k < i ==> a@[k] == b@[k],
        decreases a@.len() - i,
    {
        if a[i] != b[i] {
            return false;
        }
        i = i + 1;
    }
    proof {
        assert(a@ =~= b@);
    }
    true
}

/// Whether `i` is the first position of an identifier.
pub open spec fn is_first_position(s: Seq<u64>, id: u64, i: int) -> bool {
    &&& 0 <= i < s.len()
    &&& s[i] == id
    &&& forall|k: int| 0 <= k < i ==> s[k] != id
}

/// The first position of an identifier.
pub open spec fn id_position(s: Seq<u64>, id: u64) -> Option<usize> {
    if s.contains(id) {
        Some((choose|i: int| is_first_position(s, id, i)) as usize)
    } else {
        None
    }
}

/// An identifier has only one first position.
pub proof fn first_position_is_unique(s: Seq<u64>, id: u64, i: int)
    requires
        is_first_position(s, id, i),
        s.len() <= usize::MAX,
    ensures
        id_position(s, id) == Some(i as usize),
{
    let k = choose|k: int| is_first_position(s, id, k);
    assert(is_first_position(s, id, k));
    if k < i {
        assert(s[k] != id);
    } else if i < k {
        assert(s[i] != id);
    }
}

/// Finds the first position of an identifier.
pub fn find_id(ids: &Vec<u64>, id: u64) -> (position: Option<usize>)
    ensures
        position == id_position(ids@, id),
        position is Some ==> position->0 < ids@.len() && ids@[position->0 as int] == id,
{
    let mut i: usize = 0;
    while i < ids.len()
        invariant
            i <= ids@.len(),
            forall|k: int| 0 <= k < i ==> ids@[k] != id,
        decreases ids@.len() - i,
    {
        if ids[i] == id {
            proof {
                first_position_is_unique(ids@, id, i as int);
            }
            return Some(i);
        }
        i = i + 1;
    }
    None
}

/// An index, the last one where it is too large, and zero where there is none.
pub open spec fn bounded_index(index: usize, len: nat) -> usize {
    if len == 0 {
        0
    } else if index < len {
        index
    } else {
        (len - 1) as usize
    }
}

pub fn bound_index(index: usize, len: usize) -> (bounded: usize)
    ensures
        bounded == bounded_index(index, len as nat),
{
    if len == 0 {
        0
    } else if index < len {
        index
    } else {
        len - 1
    }
}

} // verus!

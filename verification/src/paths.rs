//! Group paths.
//!
//! A group's location is an ordered sequence of title segments.  The
//! canonical string encoding joins the segments with `" > "`; collapse
//! tracking and cut/paste matching always compare these canonical strings.
//! No escaping is supported: a title that itself contains `" > "` is
//! indistinguishable from a nested path, so splitting always takes the
//! leftmost separator first.

use vstd::multiset::Multiset;
use vstd::prelude::*;

verus! {

/// True when the three-character separator `" > "` starts at index `i` of `s`.
pub open spec fn is_sep_at(s: Seq<char>, i: int) -> bool {
    &&& 0 <= i
    &&& i + 3 <= s.len()
    &&& s[i] == ' '
    &&& s[i + 1] == '>'
    &&& s[i + 2] == ' '
}

/// A segment that contains no separator occurrence.
pub open spec fn sep_free(s: Seq<char>) -> bool {
    forall|i: int| !is_sep_at(s, i)
}

/// The canonical encoding: segments joined by `" > "`.
pub open spec fn join_segs(segs: Seq<Seq<char>>) -> Seq<char>
    decreases segs.len(),
{
    if segs.len() == 0 {
        Seq::empty()
    } else if segs.len() == 1 {
        segs[0]
    } else {
        segs[0] + seq![' ', '>', ' '] + join_segs(segs.skip(1))
    }
}

/// Splitting scan: `start` is where the current segment began, `cur` is the
/// scan position; the leftmost separator at or after `cur` ends the segment.
pub open spec fn split_scan(s: Seq<char>, start: int, cur: int) -> Seq<Seq<char>>
    decreases s.len() - cur,
{
    if !(0 <= start <= cur && cur <= s.len()) {
        Seq::empty()
    } else if cur + 3 > s.len() {
        seq![s.subrange(start, s.len() as int)]
    } else if is_sep_at(s, cur) {
        seq![s.subrange(start, cur)] + split_scan(s, cur + 3, cur + 3)
    } else {
        split_scan(s, start, cur + 1)
    }
}

/// The segments of a canonical path string, splitting on the leftmost
/// separator first.
pub open spec fn split_segs(s: Seq<char>) -> Seq<Seq<char>> {
    split_scan(s, 0, 0)
}

/// Compare two strings for equality of their character sequences.
pub fn str_eq(a: &str, b: &str) -> (r: bool)
    ensures
        r == (a@ == b@),
{
    let alen = a.unicode_len();
    let blen = b.unicode_len();
    if alen != blen {
        proof {
            assert(a@ != b@) by {
                if a@ == b@ {
                    assert(a@.len() == b@.len());
                }
            }
        }
        return false;
    }
    let mut i: usize = 0;
    while i < alen
        invariant
            alen == a@.len(),
            blen == b@.len(),
            alen == blen,
            i <= alen,
            forall|j: int| 0 <= j < i ==> a@[j] == b@[j],
        decreases alen - i,
    {
        if a.get_char(i) != b.get_char(i) {
            return false;
        }
        i = i + 1;
    }
    proof {
        assert(a@ =~= b@);
    }
    true
}

/// Lexicographic (code-point) order on character sequences, matching the
/// order in which `String` values sort.
pub open spec fn chars_lt(a: Seq<char>, b: Seq<char>) -> bool
    decreases a.len(),
{
    if b.len() == 0 {
        false
    } else if a.len() == 0 {
        true
    } else if a[0] != b[0] {
        (a[0] as u32) < (b[0] as u32)
    } else {
        chars_lt(a.skip(1), b.skip(1))
    }
}

pub open spec fn chars_le(a: Seq<char>, b: Seq<char>) -> bool {
    chars_lt(a, b) || a == b
}

/// The order is total: of two distinct sequences one is strictly smaller.
pub proof fn lemma_chars_lt_total(a: Seq<char>, b: Seq<char>)
    ensures
        chars_lt(a, b) || chars_lt(b, a) || a == b,
        !(chars_lt(a, b) && chars_lt(b, a)),
        !(chars_lt(a, b) && a == b),
    decreases a.len(),
{
    if b.len() == 0 || a.len() == 0 {
        if a.len() == b.len() {
            assert(a =~= b);
        }
    } else if a[0] != b[0] {
        assert((a[0] as u32) != (b[0] as u32)) by {
            vstd::utf8::char_u32_cast(a[0], a[0] as u32);
            vstd::utf8::char_u32_cast(b[0], b[0] as u32);
        }
    } else {
        lemma_chars_lt_total(a.skip(1), b.skip(1));
        if a.skip(1) == b.skip(1) {
            assert forall|i: int| 0 <= i < a.len() implies a[i] == b[i] by {
                if i > 0 {
                    assert(a.skip(1)[i - 1] == a[i]);
                    assert(b.skip(1)[i - 1] == b[i]);
                }
            }
            assert(a =~= b);
        }
        if a == b {
            assert(a.skip(1) =~= b.skip(1));
        }
    }
}

/// Dropping an equal first character on both sides keeps the order.
proof fn lemma_chars_lt_skip_one(a: Seq<char>, b: Seq<char>)
    requires
        a.len() > 0,
        b.len() > 0,
        a[0] == b[0],
    ensures
        chars_lt(a, b) == chars_lt(a.skip(1), b.skip(1)),
{
}

/// Decide the strict lexicographic order of two strings.
pub fn str_lt(a: &str, b: &str) -> (r: bool)
    ensures
        r == chars_lt(a@, b@),
{
    let alen = a.unicode_len();
    let blen = b.unicode_len();
    let mut i: usize = 0;
    proof {
        assert(a@.skip(0) =~= a@);
        assert(b@.skip(0) =~= b@);
    }
    loop
        invariant
            alen == a@.len(),
            blen == b@.len(),
            i <= alen,
            i <= blen,
            chars_lt(a@, b@) == chars_lt(a@.skip(i as int), b@.skip(i as int)),
        decreases alen - i,
    {
        if i >= blen {
            proof {
                assert(b@.skip(i as int).len() == 0);
            }
            return false;
        }
        if i >= alen {
            proof {
                assert(a@.skip(i as int).len() == 0);
                assert(b@.skip(i as int).len() > 0);
            }
            return true;
        }
        let ca = a.get_char(i);
        let cb = b.get_char(i);
        proof {
            assert(a@.skip(i as int)[0] == a@[i as int]);
            assert(b@.skip(i as int)[0] == b@[i as int]);
        }
        if ca != cb {
            return (ca as u32) < (cb as u32);
        }
        proof {
            lemma_chars_lt_skip_one(a@.skip(i as int), b@.skip(i as int));
            assert(a@.skip(i as int).skip(1) =~= a@.skip(i as int + 1));
            assert(b@.skip(i as int).skip(1) =~= b@.skip(i as int + 1));
        }
        i = i + 1;
    }
}

/// Split a canonical path string into its segments, leftmost separator first.
pub fn split_path(s: &str) -> (r: Vec<String>)
    ensures
        r.deep_view() == split_segs(s@),
        r.len() >= 1,
{
    let len = s.unicode_len();
    let mut r: Vec<String> = Vec::new();
    let mut start: usize = 0;
    let mut cur: usize = 0;
    proof {
        assert(r.deep_view() + split_scan(s@, 0, 0) =~= split_scan(s@, 0, 0));
    }
    loop
        invariant
            len == s@.len(),
            start <= cur <= len,
            split_segs(s@) == r.deep_view() + split_scan(s@, start as int, cur as int),
        decreases len - cur,
    {
        if len - cur < 3 {
            let seg = s.substring_char(start, len).to_owned();
            r.push(seg);
            proof {
                assert(r.deep_view() =~= split_segs(s@));
            }
            return r;
        }
        let c0 = s.get_char(cur);
        let c1 = s.get_char(cur + 1);
        let c2 = s.get_char(cur + 2);
        if c0 == ' ' && c1 == '>' && c2 == ' ' {
            let seg = s.substring_char(start, cur).to_owned();
            let ghost old_r = r.deep_view();
            r.push(seg);
            proof {
                assert(r.deep_view() =~= old_r + seq![s@.subrange(start as int, cur as int)]);
                assert(r.deep_view() + split_scan(s@, cur as int + 3, cur as int + 3)
                    =~= old_r + (seq![s@.subrange(start as int, cur as int)]
                        + split_scan(s@, cur as int + 3, cur as int + 3)));
            }
            start = cur + 3;
            cur = cur + 3;
        } else {
            proof {
                assert(!is_sep_at(s@, cur as int));
            }
            cur = cur + 1;
        }
    }
}

/// Appending one more segment extends the joined encoding by a separator and
/// that segment (or is the segment itself for a first segment).
pub proof fn lemma_join_push(segs: Seq<Seq<char>>, seg: Seq<char>)
    ensures
        segs.len() == 0 ==> join_segs(segs.push(seg)) == seg,
        segs.len() > 0 ==> join_segs(segs.push(seg))
            == join_segs(segs) + seq![' ', '>', ' '] + seg,
    decreases segs.len(),
{
    let p = segs.push(seg);
    if segs.len() == 0 {
        assert(p[0] == seg);
    } else if segs.len() == 1 {
        assert(p.skip(1) =~= seq![seg]);
        assert(join_segs(seq![seg]) == seq![seg][0]);
        assert(join_segs(p) == p[0] + seq![' ', '>', ' '] + seg);
    } else {
        lemma_join_push(segs.skip(1), seg);
        assert(p.skip(1) =~= segs.skip(1).push(seg));
        assert(join_segs(segs.skip(1).push(seg))
            == join_segs(segs.skip(1)) + seq![' ', '>', ' '] + seg);
        assert(join_segs(p) == p[0] + seq![' ', '>', ' '] + join_segs(p.skip(1)));
        assert(join_segs(p) =~= join_segs(segs) + seq![' ', '>', ' '] + seg);
    }
}

/// Join path segments with the canonical separator.
pub fn join_path(segs: &Vec<String>) -> (r: String)
    ensures
        r@ == join_segs(segs.deep_view()),
{
    let mut r = String::new();
    let mut i: usize = 0;
    while i < segs.len()
        invariant
            i <= segs.len(),
            r@ == join_segs(segs.deep_view().take(i as int)),
        decreases segs.len() - i,
    {
        if i > 0 {
            r.append(" > ");
            proof {
                reveal_strlit(" > ");
                assert(" > "@ =~= seq![' ', '>', ' ']);
            }
        }
        r.append(segs[i].as_str());
        proof {
            lemma_join_push(segs.deep_view().take(i as int), segs.deep_view()[i as int]);
            assert(segs.deep_view().take(i as int).push(segs.deep_view()[i as int])
                =~= segs.deep_view().take(i as int + 1));
        }
        i = i + 1;
    }
    proof {
        assert(segs.deep_view().take(segs.len() as int) =~= segs.deep_view());
    }
    r
}

proof fn lemma_split_scan_nonempty(s: Seq<char>, start: int, cur: int)
    requires
        0 <= start <= cur <= s.len(),
    ensures
        split_scan(s, start, cur).len() >= 1,
    decreases s.len() - cur,
{
    if cur + 3 > s.len() {
    } else if is_sep_at(s, cur) {
        lemma_split_scan_nonempty(s, cur + 3, cur + 3);
    } else {
        lemma_split_scan_nonempty(s, start, cur + 1);
    }
}

proof fn lemma_join_split_scan(s: Seq<char>, start: int, cur: int)
    requires
        0 <= start <= cur <= s.len(),
    ensures
        join_segs(split_scan(s, start, cur)) == s.subrange(start, s.len() as int),
    decreases s.len() - cur,
{
    if cur + 3 > s.len() {
        let r = split_scan(s, start, cur);
        assert(r =~= seq![s.subrange(start, s.len() as int)]);
        assert(join_segs(r) == r[0]);
    } else if is_sep_at(s, cur) {
        lemma_join_split_scan(s, cur + 3, cur + 3);
        lemma_split_scan_nonempty(s, cur + 3, cur + 3);
        let rest = split_scan(s, cur + 3, cur + 3);
        let r = split_scan(s, start, cur);
        assert(r =~= seq![s.subrange(start, cur)] + rest);
        assert(r[0] == s.subrange(start, cur));
        assert(r.skip(1) =~= rest);
        assert(r.len() >= 2);
        assert(join_segs(r) == r[0] + seq![' ', '>', ' '] + join_segs(rest));
        assert(s.subrange(start, cur) + seq![' ', '>', ' '] + s.subrange(cur + 3, s.len() as int)
            =~= s.subrange(start, s.len() as int));
    } else {
        lemma_join_split_scan(s, start, cur + 1);
    }
}

/// Joining the segments of a canonical path restores the path.
pub proof fn lemma_join_split(s: Seq<char>)
    ensures
        join_segs(split_segs(s)) == s,
{
    lemma_join_split_scan(s, 0, 0);
    assert(s.subrange(0, s.len() as int) =~= s);
}

/// The display order of group paths: sorted by code point, every adjacent
/// pair in order.
pub open spec fn paths_sorted(s: Seq<Seq<char>>) -> bool {
    forall|i: int| 0 <= i && i + 1 < s.len() ==> chars_le(#[trigger] s[i], s[i + 1])
}

/// An empty sequence holds the empty multiset.
proof fn lemma_to_multiset_empty(s: Seq<String>)
    requires
        s.len() == 0,
    ensures
        s.to_multiset() == Multiset::<String>::empty(),
{
    broadcast use vstd::multiset::group_multiset_axioms;

    assert forall|a: String| s.to_multiset().count(a) == Multiset::<String>::empty().count(a) by {
        vstd::seq_lib::to_multiset_contains(s, a);
    }
    assert(s.to_multiset() =~= Multiset::<String>::empty());
}

/// An empty sequence of views holds the empty multiset.
proof fn lemma_to_multiset_empty_dv(s: Seq<Seq<char>>)
    requires
        s.len() == 0,
    ensures
        s.to_multiset() == Multiset::<Seq<char>>::empty(),
{
    broadcast use vstd::multiset::group_multiset_axioms;

    assert forall|a: Seq<char>|
        s.to_multiset().count(a) == Multiset::<Seq<char>>::empty().count(a) by {
        vstd::seq_lib::to_multiset_contains(s, a);
    }
    assert(s.to_multiset() =~= Multiset::<Seq<char>>::empty());
}

/// Moving the head of `rest0` into `out0` keeps the combined views.
proof fn lemma_sort_step_dv(
    out0: Seq<Seq<char>>,
    rest0: Seq<Seq<char>>,
    orig: Seq<Seq<char>>,
    k: int,
    x: Seq<char>,
)
    requires
        0 <= k <= out0.len(),
        rest0.len() > 0,
        rest0[0] == x,
        out0.to_multiset().add(rest0.to_multiset()) == orig.to_multiset(),
    ensures
        out0.insert(k, x).to_multiset().add(rest0.remove(0).to_multiset()) == orig.to_multiset(),
{
    broadcast use vstd::multiset::group_multiset_axioms;

    vstd::seq_lib::to_multiset_insert(out0, k, x);
    vstd::seq_lib::to_multiset_remove(rest0, 0);
    vstd::seq_lib::to_multiset_contains(rest0, x);
    assert(rest0.contains(x)) by {
        assert(rest0[0] == x);
    }
    assert(out0.insert(k, x).to_multiset().add(rest0.remove(0).to_multiset())
        =~= orig.to_multiset());
}

/// Moving the head of `rest0` into `out0` keeps the combined contents.
proof fn lemma_sort_step(out0: Seq<String>, rest0: Seq<String>, orig: Seq<String>, k: int, x: String)
    requires
        0 <= k <= out0.len(),
        rest0.len() > 0,
        rest0[0] == x,
        out0.to_multiset().add(rest0.to_multiset()) == orig.to_multiset(),
    ensures
        out0.insert(k, x).to_multiset().add(rest0.remove(0).to_multiset()) == orig.to_multiset(),
{
    broadcast use vstd::multiset::group_multiset_axioms;

    vstd::seq_lib::to_multiset_insert(out0, k, x);
    vstd::seq_lib::to_multiset_remove(rest0, 0);
    vstd::seq_lib::to_multiset_contains(rest0, x);
    assert(rest0.contains(x)) by {
        assert(rest0[0] == x);
    }
    assert(out0.insert(k, x).to_multiset().add(rest0.remove(0).to_multiset()) =~= orig.to_multiset());
}

/// Sort a list of paths into the canonical display order.  The result holds
/// exactly the same strings, so the outcome does not depend on the order in
/// which the paths were gathered.
pub fn sort_paths(v: Vec<String>) -> (r: Vec<String>)
    ensures
        paths_sorted(r.deep_view()),
        r@.to_multiset() == v@.to_multiset(),
        r.deep_view().to_multiset() == v.deep_view().to_multiset(),
{
    let ghost orig = v@;
    let ghost origd = v.deep_view();
    let mut rest = v;
    let mut out: Vec<String> = Vec::new();
    proof {
        broadcast use vstd::multiset::group_multiset_axioms;

        lemma_to_multiset_empty(out@);
        lemma_to_multiset_empty_dv(out.deep_view());
        assert(out@.to_multiset().add(rest@.to_multiset()) =~= orig.to_multiset());
        assert(out.deep_view().to_multiset().add(rest.deep_view().to_multiset())
            =~= origd.to_multiset());
    }
    while rest.len() > 0
        invariant
            paths_sorted(out.deep_view()),
            out@.to_multiset().add(rest@.to_multiset()) == orig.to_multiset(),
            out.deep_view().to_multiset().add(rest.deep_view().to_multiset())
                == origd.to_multiset(),
        decreases rest@.len(),
    {
        let ghost rest0 = rest@;
        let ghost restd0 = rest.deep_view();
        let ghost out0 = out@;
        let ghost dv0 = out.deep_view();
        let x = rest.remove(0);
        let ghost xg = x;
        let mut k: usize = 0;
        while k < out.len() && str_lt(out[k].as_str(), x.as_str())
            invariant
                k <= out.len(),
                out@ == out0,
                forall|j: int| 0 <= j < k ==> chars_lt(#[trigger] out.deep_view()[j], x@),
            decreases out.len() - k,
        {
            k = k + 1;
        }
        let ghost kk = k as int;
        proof {
            assert(out.deep_view() == dv0);
            assert(forall|j: int| 0 <= j < kk ==> chars_lt(#[trigger] dv0[j], xg@));
            if k < out@.len() {
                lemma_chars_lt_total(dv0[kk], xg@);
                assert(chars_le(xg@, dv0[kk]));
            }
        }
        out.insert(k, x);
        proof {
            lemma_sort_step(out0, rest0, orig, kk, xg);
            assert(out@ == out0.insert(kk, xg));
            assert(rest@ == rest0.remove(0));
            assert(out.deep_view() =~= dv0.insert(kk, xg@));
            assert(rest.deep_view() =~= restd0.remove(0));
            lemma_sort_step_dv(dv0, restd0, origd, kk, xg@);
            assert(paths_sorted(out.deep_view())) by {
                assert forall|i: int| 0 <= i && i + 1 < out.deep_view().len() implies chars_le(
                    #[trigger] out.deep_view()[i],
                    out.deep_view()[i + 1],
                ) by {
                    assert(out.deep_view().len() == out0.len() + 1);
                    if i + 1 < kk {
                        assert(out@[i] == out0[i]);
                        assert(out@[i + 1] == out0[i + 1]);
                        assert(out.deep_view()[i] == dv0[i]);
                        assert(out.deep_view()[i + 1] == dv0[i + 1]);
                        assert(chars_le(dv0[i], dv0[i + 1]));
                    } else if i + 1 == kk {
                        assert(out@[i] == out0[i]);
                        assert(out.deep_view()[i] == dv0[i]);
                        assert(out@[i + 1] == xg);
                        assert(out.deep_view()[i + 1] == xg@);
                        assert(chars_lt(dv0[i], xg@));
                    } else if i == kk {
                        assert(out@[i] == xg);
                        assert(out.deep_view()[i] == xg@);
                        assert(out@[i + 1] == out0[i]);
                        assert(out.deep_view()[i + 1] == dv0[i]);
                    } else {
                        assert(out@[i] == out0[i - 1]);
                        assert(out@[i + 1] == out0[i]);
                        assert(out.deep_view()[i] == dv0[i - 1]);
                        assert(out.deep_view()[i + 1] == dv0[i]);
                        assert(chars_le(dv0[i - 1], dv0[i]));
                    }
                }
            }
        }
    }
    proof {
        broadcast use vstd::multiset::group_multiset_axioms;

        lemma_to_multiset_empty(rest@);
        lemma_to_multiset_empty_dv(rest.deep_view());
        assert(out@.to_multiset() =~= orig.to_multiset());
        assert(out.deep_view().to_multiset() =~= origd.to_multiset());
    }
    out
}

/// Join the first `n` segments of a path; used for the canonical path of an
/// intermediate tree node.
pub fn join_path_prefix(segs: &Vec<String>, n: usize) -> (r: String)
    requires
        n <= segs.len(),
    ensures
        r@ == join_segs(segs.deep_view().take(n as int)),
{
    let mut r = String::new();
    let mut i: usize = 0;
    while i < n
        invariant
            i <= n <= segs.len(),
            r@ == join_segs(segs.deep_view().take(i as int)),
        decreases n - i,
    {
        if i > 0 {
            r.append(" > ");
            proof {
                reveal_strlit(" > ");
                assert(" > "@ =~= seq![' ', '>', ' ']);
            }
        }
        r.append(segs[i].as_str());
        proof {
            lemma_join_push(segs.deep_view().take(i as int), segs.deep_view()[i as int]);
            assert(segs.deep_view().take(i as int).push(segs.deep_view()[i as int])
                =~= segs.deep_view().take(i as int + 1));
        }
        i = i + 1;
    }
    r
}

} // verus!

//! Character-sequence primitives: equality, lexicographic order, sorting and
//! joining of column-name lists. Query text synthesis rests on these.

use vstd::prelude::*;
use vstd::multiset::Multiset;
use vstd::string::*;

verus! {

/// Appends one character to a string.
///
/// Relies on `String::push` of std: appends exactly the given character.
#[verifier::external_body]
pub fn push_char(s: &mut String, c: char)
    ensures
        final(s)@ == old(s)@.push(c),
{
    s.push(c);
}

/// Character-for-character equality of two string slices.
pub fn str_eq(a: &str, b: &str) -> (r: bool)
    ensures
        r == (a@ == b@),
{
    let alen = a.unicode_len();
    let blen = b.unicode_len();
    if alen != blen {
        return false;
    }
    let mut i: usize = 0;
    while i < alen
        invariant
            alen == a@.len(),
            alen == b@.len(),
            i <= alen,
            forall|j: int| 0 <= j < i ==> a@[j] == b@[j],
        decreases alen - i,
    {
        if a.get_char(i) != b.get_char(i) {
            return false;
        }
        i = i + 1;
    }
    proof {
        assert(a@ =~= b@);
    }
    true
}

/// Lexicographic order on character sequences, by code point; the order in
/// which column names are listed in synthesized query text.
pub open spec fn lex_le(a: Seq<char>, b: Seq<char>) -> bool
    decreases a.len(),
{
    if a.len() == 0 {
        true
    } else if b.len() == 0 {
        false
    } else if (a[0] as u32) < (b[0] as u32) {
        true
    } else if (b[0] as u32) < (a[0] as u32) {
        false
    } else {
        lex_le(a.drop_first(), b.drop_first())
    }
}

/// Distinct characters have distinct code points.
proof fn lemma_char_cast_injective(c: char, d: char)
    requires
        c as u32 == d as u32,
    ensures
        c == d,
{
    vstd::utf8::char_u32_cast(c, c as u32);
    vstd::utf8::char_u32_cast(d, d as u32);
}

pub proof fn lemma_lex_le_total(a: Seq<char>, b: Seq<char>)
    ensures
        lex_le(a, b) || lex_le(b, a),
    decreases a.len(),
{
    if a.len() != 0 && b.len() != 0 {
        if a[0] as u32 == b[0] as u32 {
            lemma_char_cast_injective(a[0], b[0]);
            lemma_lex_le_total(a.drop_first(), b.drop_first());
        }
    }
}

pub proof fn lemma_lex_le_trans(a: Seq<char>, b: Seq<char>, c: Seq<char>)
    requires
        lex_le(a, b),
        lex_le(b, c),
    ensures
        lex_le(a, c),
    decreases a.len(),
{
    if a.len() != 0 && b.len() != 0 && c.len() != 0 {
        if a[0] as u32 == b[0] as u32 && b[0] as u32 == c[0] as u32 {
            lemma_char_cast_injective(a[0], b[0]);
            lemma_char_cast_injective(b[0], c[0]);
            lemma_lex_le_trans(a.drop_first(), b.drop_first(), c.drop_first());
        }
    }
}

/// If the first `i` characters agree, the order is decided past them.
proof fn lemma_lex_le_common_prefix(a: Seq<char>, b: Seq<char>, i: int)
    requires
        0 <= i <= a.len(),
        i <= b.len(),
        forall|j: int| 0 <= j < i ==> a[j] == b[j],
    ensures
        lex_le(a, b) == lex_le(a.skip(i), b.skip(i)),
    decreases i,
{
    if i > 0 {
        assert(a.len() > 0 && b.len() > 0);
        assert(a[0] == b[0]);
        lemma_lex_le_common_prefix(a.drop_first(), b.drop_first(), i - 1);
        assert(a.drop_first().skip(i - 1) =~= a.skip(i));
        assert(b.drop_first().skip(i - 1) =~= b.skip(i));
    } else {
        assert(a.skip(0) =~= a);
        assert(b.skip(0) =~= b);
    }
}

/// Decides `lex_le` on two string slices.
pub fn str_lex_le(a: &str, b: &str) -> (r: bool)
    ensures
        r == lex_le(a@, b@),
{
    let alen = a.unicode_len();
    let blen = b.unicode_len();
    let mut i: usize = 0;
    loop
        invariant
            alen == a@.len(),
            blen == b@.len(),
            i <= alen,
            i <= blen,
            forall|j: int| 0 <= j < i ==> a@[j] == b@[j],
        decreases alen - i,
    {
        proof {
            lemma_lex_le_common_prefix(a@, b@, i as int);
        }
        if i >= alen {
            proof {
                assert(a@.skip(i as int).len() == 0);
            }
            return true;
        }
        if i >= blen {
            proof {
                assert(b@.skip(i as int).len() == 0);
                assert(a@.skip(i as int).len() > 0);
            }
            return false;
        }
        let ca = a.get_char(i);
        let cb = b.get_char(i);
        proof {
            assert(a@.skip(i as int)[0] == a@[i as int]);
            assert(b@.skip(i as int)[0] == b@[i as int]);
        }
        if (ca as u32) < (cb as u32) {
            return true;
        }
        if (cb as u32) < (ca as u32) {
            return false;
        }
        i = i + 1;
    }
}

/// The views of a sequence of strings.
pub open spec fn str_views(v: Seq<String>) -> Seq<Seq<char>> {
    v.map_values(|s: String| s@)
}

/// `x` placed before the first element of `s` that is not below it.
pub open spec fn insert_sorted(x: Seq<char>, s: Seq<Seq<char>>) -> Seq<Seq<char>>
    decreases s.len(),
{
    if s.len() == 0 {
        seq![x]
    } else if lex_le(x, s[0]) {
        seq![x] + s
    } else {
        seq![s[0]] + insert_sorted(x, s.drop_first())
    }
}

/// The lexicographically sorted rearrangement of `s`, obtained by repeated
/// insertion.
pub open spec fn sort_strs(s: Seq<Seq<char>>) -> Seq<Seq<char>>
    decreases s.len(),
{
    if s.len() == 0 {
        Seq::empty()
    } else {
        insert_sorted(s.last(), sort_strs(s.drop_last()))
    }
}

pub open spec fn sorted_strs(s: Seq<Seq<char>>) -> bool {
    forall|i: int, j: int| 0 <= i < j < s.len() ==> lex_le(s[i], s[j])
}

proof fn lemma_insert_sorted_at(x: Seq<char>, s: Seq<Seq<char>>, j: int)
    requires
        0 <= j <= s.len(),
        forall|k: int| 0 <= k < j ==> !lex_le(x, s[k]),
        j < s.len() ==> lex_le(x, s[j]),
    ensures
        insert_sorted(x, s) == s.take(j) + seq![x] + s.skip(j),
    decreases j,
{
    if j == 0 {
        if s.len() == 0 {
            assert(insert_sorted(x, s) =~= s.take(0) + seq![x] + s.skip(0));
        } else {
            assert(insert_sorted(x, s) =~= s.take(0) + seq![x] + s.skip(0));
        }
    } else {
        assert(!lex_le(x, s[0]));
        lemma_insert_sorted_at(x, s.drop_first(), j - 1);
        assert(seq![s[0]] + (s.drop_first().take(j - 1) + seq![x] + s.drop_first().skip(j - 1))
            =~= s.take(j) + seq![x] + s.skip(j));
    }
}

pub proof fn lemma_insert_sorted_multiset(x: Seq<char>, s: Seq<Seq<char>>)
    ensures
        insert_sorted(x, s).to_multiset() == s.to_multiset().insert(x),
    decreases s.len(),
{
    broadcast use vstd::seq_lib::group_to_multiset_ensures;

    if s.len() == 0 {
        assert(insert_sorted(x, s) =~= Seq::empty().push(x));
        assert(Seq::<Seq<char>>::empty().push(x).to_multiset() =~= s.to_multiset().insert(x));
    } else if lex_le(x, s[0]) {
        assert(insert_sorted(x, s) =~= seq![x] + s);
        vstd::seq_lib::lemma_multiset_commutative(seq![x], s);
        assert(seq![x].to_multiset() =~= Multiset::empty().insert(x)) by {
            assert(seq![x] =~= Seq::empty().push(x));
        }
        assert((seq![x] + s).to_multiset() =~= s.to_multiset().insert(x)) by {
            assert(Multiset::<Seq<char>>::empty().insert(x).add(s.to_multiset())
                =~= s.to_multiset().insert(x));
        }
    } else {
        lemma_insert_sorted_multiset(x, s.drop_first());
        assert(insert_sorted(x, s) =~= seq![s[0]] + insert_sorted(x, s.drop_first()));
        vstd::seq_lib::lemma_multiset_commutative(seq![s[0]], insert_sorted(x, s.drop_first()));
        vstd::seq_lib::lemma_multiset_commutative(seq![s[0]], s.drop_first());
        assert(s =~= seq![s[0]] + s.drop_first());
        assert((seq![s[0]] + insert_sorted(x, s.drop_first())).to_multiset() =~= s.to_multiset()
            .insert(x)) by {
            assert(seq![s[0]].to_multiset().add(s.drop_first().to_multiset().insert(x)) =~= (
            seq![s[0]].to_multiset().add(s.drop_first().to_multiset())).insert(x));
        }
    }
}

pub proof fn lemma_insert_sorted_sorted(x: Seq<char>, s: Seq<Seq<char>>)
    requires
        sorted_strs(s),
    ensures
        sorted_strs(insert_sorted(x, s)),
    decreases s.len(),
{
    if s.len() == 0 {
    } else if lex_le(x, s[0]) {
        let r = seq![x] + s;
        assert forall|i: int, j: int| 0 <= i < j < r.len() implies lex_le(r[i], r[j]) by {
            if i == 0 {
                if j > 1 {
                    lemma_lex_le_trans(x, s[0], s[j - 1]);
                }
            }
        }
    } else {
        lemma_lex_le_total(x, s[0]);
        lemma_insert_sorted_sorted(x, s.drop_first());
        let t = insert_sorted(x, s.drop_first());
        let r = seq![s[0]] + t;
        assert(insert_sorted(x, s) =~= r);
        // every element of t is either x or an element of s.drop_first(),
        // and s[0] is below both
        assert forall|i: int, j: int| 0 <= i < j < r.len() implies lex_le(r[i], r[j]) by {
            if i == 0 {
                broadcast use vstd::seq_lib::group_to_multiset_ensures;

                lemma_insert_sorted_multiset(x, s.drop_first());
                assert(t.to_multiset().contains(t[j - 1]));
                if t[j - 1] == x {
                    assert(lex_le(s[0], x));
                } else {
                    assert(s.drop_first().to_multiset().contains(t[j - 1])) by {
                        assert(t.to_multiset() == s.drop_first().to_multiset().insert(x));
                    }
                    let k = choose|k: int|
                        0 <= k < s.drop_first().len() && s.drop_first()[k] == t[j - 1];
                    assert(lex_le(s[0], s[k + 1]));
                }
            }
        }
    }
}

pub proof fn lemma_sort_strs_multiset(s: Seq<Seq<char>>)
    ensures
        sort_strs(s).to_multiset() == s.to_multiset(),
    decreases s.len(),
{
    broadcast use vstd::seq_lib::group_to_multiset_ensures;

    if s.len() == 0 {
        assert(sort_strs(s) =~= s);
    } else {
        lemma_sort_strs_multiset(s.drop_last());
        lemma_insert_sorted_multiset(s.last(), sort_strs(s.drop_last()));
        assert(s =~= s.drop_last().push(s.last()));
        assert(s.drop_last().push(s.last()).to_multiset() =~= s.drop_last().to_multiset().insert(
            s.last(),
        ));
    }
}

pub proof fn lemma_sort_strs_sorted(s: Seq<Seq<char>>)
    ensures
        sorted_strs(sort_strs(s)),
    decreases s.len(),
{
    if s.len() > 0 {
        lemma_sort_strs_sorted(s.drop_last());
        lemma_insert_sorted_sorted(s.last(), sort_strs(s.drop_last()));
    }
}

/// Inserts `x` into the sorted vector `acc` at its ordered position.
fn insert_string(acc: &mut Vec<String>, x: String)
    ensures
        str_views(final(acc)@) == insert_sorted(x@, str_views(old(acc)@)),
{
    let ghost s = str_views(acc@);
    let mut j: usize = 0;
    loop
        invariant
            j <= acc.len(),
            s == str_views(acc@),
            forall|k: int| 0 <= k < j ==> !lex_le(x@, s[k]),
        ensures
            j <= acc.len(),
            forall|k: int| 0 <= k < j ==> !lex_le(x@, s[k]),
            j < acc.len() ==> lex_le(x@, s[j as int]),
        decreases acc.len() - j,
    {
        if j >= acc.len() {
            break;
        }
        if str_lex_le(x.as_str(), acc[j].as_str()) {
            break;
        }
        j = j + 1;
    }
    proof {
        lemma_insert_sorted_at(x@, s, j as int);
    }
    acc.insert(j, x);
    proof {
        assert(str_views(acc@) =~= s.take(j as int) + seq![x@] + s.skip(j as int));
    }
}

/// The input strings rearranged into lexicographic order.
pub fn sort_strings(v: &Vec<String>) -> (r: Vec<String>)
    ensures
        str_views(r@) == sort_strs(str_views(v@)),
{
    let mut out: Vec<String> = Vec::new();
    let mut i: usize = 0;
    while i < v.len()
        invariant
            i <= v.len(),
            str_views(out@) == sort_strs(str_views(v@.take(i as int))),
        decreases v.len() - i,
    {
        insert_string(&mut out, v[i].clone());
        proof {
            let t = v@.take(i + 1int);
            assert(str_views(t).drop_last() =~= str_views(v@.take(i as int)));
            assert(str_views(t).last() == v@[i as int]@);
        }
        i = i + 1;
    }
    proof {
        assert(v@.take(v@.len() as int) =~= v@);
    }
    out
}

/// Appending a string appends its view.
pub proof fn lemma_str_views_push(v: Seq<String>, x: String)
    ensures
        str_views(v.push(x)) == str_views(v).push(x@),
{
    assert forall|j: int| 0 <= j < v.len() + 1 implies str_views(v.push(x))[j] == str_views(
        v,
    ).push(x@)[j] by {
        if j < v.len() {
            assert(v.push(x)[j] == v[j]);
        } else {
            assert(v.push(x)[j] == x);
        }
    }
    assert(str_views(v.push(x)) =~= str_views(v).push(x@));
}

/// The elements of `s` joined with a comma and a space between neighbours.
pub open spec fn join_comma(s: Seq<Seq<char>>) -> Seq<char>
    decreases s.len(),
{
    if s.len() == 0 {
        Seq::empty()
    } else if s.len() == 1 {
        s[0]
    } else {
        join_comma(s.drop_last()) + seq![',', ' '] + s.last()
    }
}

/// Joins the strings of `v` with `", "` between neighbours.
pub fn join_comma_strings(v: &Vec<String>) -> (r: String)
    ensures
        r@ == join_comma(str_views(v@)),
{
    let mut out = String::new();
    let mut i: usize = 0;
    while i < v.len()
        invariant
            i <= v.len(),
            out@ == join_comma(str_views(v@.take(i as int))),
        decreases v.len() - i,
    {
        if i > 0 {
            out.append(", ");
        }
        out.append(v[i].as_str());
        proof {
            reveal_strlit(", ");
            let t = str_views(v@.take(i + 1int));
            assert(t.drop_last() =~= str_views(v@.take(i as int)));
            assert(t.last() == v@[i as int]@);
            if i == 0 {
                assert(out@ =~= join_comma(t));
            } else {
                assert(", "@ =~= seq![',', ' ']);
                assert(out@ =~= join_comma(t.drop_last()) + seq![',', ' '] + t.last());
            }
        }
        i = i + 1;
    }
    proof {
        assert(v@.take(v@.len() as int) =~= v@);
    }
    out
}

} // verus!

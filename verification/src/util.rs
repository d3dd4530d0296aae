//! Editing helpers: principal lists, durations and generated identifiers.
use vstd::prelude::*;
use vstd::string::*;

use rand::distr::SampleString;

use crate::text::{
    ascii_lower, chars_equal, chars_of, decimal, decimal_string, digit_char, is_ascii_alnum, lower_char,
    lower_chars, push_decimal, string_from_chars, trim, trim_chars, leading_ws, trailing_ws,
    lemma_leading_ws_bound, lemma_trailing_ws_bound,
};
use crate::status::joined;

verus! {

/// A character that separates principals in an edited list.
pub open spec fn is_principal_separator(c: char) -> bool {
    c == ',' || c == ';' || c == '\n' || c == '\r'
}

/// `s` cut at every separator.
pub open spec fn segments(s: Seq<char>) -> Seq<Seq<char>>
    decreases s.len(),
{
    if s.len() == 0 {
        seq![Seq::<char>::empty()]
    } else {
        let r = segments(s.drop_last());
        if is_principal_separator(s.last()) {
            r.push(Seq::<char>::empty())
        } else {
            r.update(r.len() - 1, r.last().push(s.last()))
        }
    }
}

pub proof fn lemma_segments_nonempty(s: Seq<char>)
    ensures
        segments(s).len() >= 1,
    decreases s.len(),
{
    if s.len() > 0 {
        lemma_segments_nonempty(s.drop_last());
    }
}

/// A text with no comma, semicolon, carriage return or line feed is one segment: nothing else
/// (a space, a tab, a backslash) separates principals.
pub proof fn lemma_segments_unseparated(s: Seq<char>)
    requires
        forall|i: int|
            0 <= i < s.len() ==> #[trigger] s[i] != ',' && s[i] != ';' && s[i] != '\n' && s[i]
                != '\r',
    ensures
        segments(s) == seq![s],
    decreases s.len(),
{
    if s.len() > 0 {
        lemma_segments_unseparated(s.drop_last());
        assert(s.drop_last().push(s.last()) =~= s);
        assert(seq![s.drop_last()].update(0, s.drop_last().push(s.last())) =~= seq![s]);
    } else {
        assert(s =~= Seq::<char>::empty());
    }
}

/// Each comma, semicolon, carriage return or line feed separates: `a`, one of them, then `b`
/// (neither holding one) is the two segments `a` and `b`.
pub proof fn lemma_segments_separated(a: Seq<char>, sep: char, b: Seq<char>)
    requires
        sep == ',' || sep == ';' || sep == '\n' || sep == '\r',
        forall|i: int|
            0 <= i < a.len() ==> #[trigger] a[i] != ',' && a[i] != ';' && a[i] != '\n' && a[i]
                != '\r',
        forall|i: int|
            0 <= i < b.len() ==> #[trigger] b[i] != ',' && b[i] != ';' && b[i] != '\n' && b[i]
                != '\r',
    ensures
        segments(a.push(sep) + b) == seq![a, b],
    decreases b.len(),
{
    let s = a.push(sep) + b;
    if b.len() == 0 {
        assert(s =~= a.push(sep));
        assert(s.drop_last() =~= a);
        lemma_segments_unseparated(a);
        assert(b =~= Seq::<char>::empty());
        assert(seq![a].push(Seq::<char>::empty()) =~= seq![a, b]);
    } else {
        lemma_segments_separated(a, sep, b.drop_last());
        assert(s.drop_last() =~= a.push(sep) + b.drop_last());
        assert(s.last() == b.last());
        assert(b.drop_last().push(b.last()) =~= b);
        assert(seq![a, b.drop_last()].update(1, b.drop_last().push(b.last())) =~= seq![a, b]);
    }
}

/// The trimmed segments that are not empty, in order.
pub open spec fn nonblank_trimmed(segs: Seq<Seq<char>>) -> Seq<Seq<char>>
    decreases segs.len(),
{
    if segs.len() == 0 {
        Seq::empty()
    } else {
        let r = nonblank_trimmed(segs.drop_last());
        let t = trim(segs.last());
        if t.len() > 0 {
            r.push(t)
        } else {
            r
        }
    }
}

/// The principals written in `s`: the separated items, trimmed, without empty ones.
pub open spec fn principal_tokens(s: Seq<char>) -> Seq<Seq<char>> {
    nonblank_trimmed(segments(s))
}

/// A text with no comma, semicolon, carriage return or line feed holds one principal, the
/// whole text trimmed, inner spaces kept (or none when it is blank).
pub proof fn lemma_principal_tokens_unseparated(s: Seq<char>)
    requires
        forall|i: int|
            0 <= i < s.len() ==> #[trigger] s[i] != ',' && s[i] != ';' && s[i] != '\n' && s[i]
                != '\r',
    ensures
        principal_tokens(s) == (if trim(s).len() > 0 {
            seq![trim(s)]
        } else {
            Seq::<Seq<char>>::empty()
        }),
{
    lemma_segments_unseparated(s);
    let segs = seq![s];
    assert(segs.drop_last() =~= Seq::<Seq<char>>::empty());
    assert(segs.last() == s);
    assert(nonblank_trimmed(Seq::<Seq<char>>::empty()) == Seq::<Seq<char>>::empty());
    if trim(s).len() > 0 {
        assert(Seq::<Seq<char>>::empty().push(trim(s)) =~= seq![trim(s)]);
    }
}

/// Lexicographic order of character sequences by code point (the order of `String`).
pub open spec fn lex_lt(a: Seq<char>, b: Seq<char>) -> bool
    decreases a.len(),
{
    if b.len() == 0 {
        false
    } else if a.len() == 0 {
        true
    } else if a[0] != b[0] {
        (a[0] as u32) < (b[0] as u32)
    } else {
        lex_lt(a.drop_first(), b.drop_first())
    }
}

pub proof fn lemma_lex_irreflexive(a: Seq<char>)
    ensures
        !lex_lt(a, a),
    decreases a.len(),
{
    if a.len() > 0 {
        lemma_lex_irreflexive(a.drop_first());
    }
}

pub proof fn lemma_lex_transitive(a: Seq<char>, b: Seq<char>, c: Seq<char>)
    requires
        lex_lt(a, b),
        lex_lt(b, c),
    ensures
        lex_lt(a, c),
    decreases a.len(),
{
    if a.len() > 0 && b.len() > 0 && c.len() > 0 {
        if a[0] == b[0] && b[0] == c[0] {
            lemma_lex_transitive(a.drop_first(), b.drop_first(), c.drop_first());
        }
    }
}

pub proof fn lemma_lex_total(a: Seq<char>, b: Seq<char>)
    requires
        a != b,
    ensures
        lex_lt(a, b) || lex_lt(b, a),
    decreases a.len(),
{
    if a.len() > 0 && b.len() > 0 && a[0] == b[0] {
        if a.drop_first() == b.drop_first() {
            assert(a =~= seq![a[0]] + a.drop_first());
            assert(b =~= seq![b[0]] + b.drop_first());
        }
        lemma_lex_total(a.drop_first(), b.drop_first());
    } else if a.len() == 0 && b.len() == 0 {
        assert(a =~= b);
    } else if a.len() > 0 && b.len() > 0 {
        vstd::utf8::char_u32_cast(a[0], a[0] as u32);
        vstd::utf8::char_u32_cast(b[0], b[0] as u32);
        assert((a[0] as u32) != (b[0] as u32));
    }
}

/// Whether `a` sorts before `b`.
fn chars_less(a: &Vec<char>, b: &Vec<char>) -> (res: bool)
    ensures
        res == lex_lt(a@, b@),
{
    let mut i: usize = 0;
    assert(a@.skip(0) =~= a@);
    assert(b@.skip(0) =~= b@);
    while i < a.len() && i < b.len() && a[i] == b[i]
        invariant
            i <= a.len(),
            i <= b.len(),
            lex_lt(a@, b@) == lex_lt(a@.skip(i as int), b@.skip(i as int)),
        decreases a.len() - i,
    {
        assert(a@.skip(i as int).drop_first() =~= a@.skip(i + 1));
        assert(b@.skip(i as int).drop_first() =~= b@.skip(i + 1));
        i = i + 1;
    }
    if i == b.len() {
        false
    } else if i == a.len() {
        true
    } else {
        assert(a@.skip(i as int)[0] == a@[i as int]);
        assert(b@.skip(i as int)[0] == b@[i as int]);
        (a[i] as u32) < (b[i] as u32)
    }
}

/// The name by which principals are sorted and told apart: the name with ASCII letters lowered.
#[verifier::opaque]
pub open spec fn principal_key(s: Seq<char>) -> Seq<char> {
    ascii_lower(s)
}

/// Whether no principal before the `m`-th has its lowered name.
pub open spec fn first_of_key(tokens: Seq<Seq<char>>, m: int) -> bool {
    forall|q: int| 0 <= q < m ==> principal_key(#[trigger] tokens[q]) != principal_key(tokens[m])
}

/// Whether the names of `r` are strictly increasing by key.
#[verifier::opaque]
pub open spec fn sorted_by_key(r: Seq<Seq<char>>) -> bool {
    forall|i: int, j: int|
        0 <= i < j < r.len() ==> lex_lt(principal_key(#[trigger] r[i]), principal_key(#[trigger] r[j]))
}

/// Whether `name` is a principal of `tokens` that no earlier principal shares a key with.
pub open spec fn is_first_principal(tokens: Seq<Seq<char>>, name: Seq<char>) -> bool {
    exists|k: int| #![trigger tokens[k]] 0 <= k < tokens.len() && tokens[k] == name && first_of_key(tokens, k)
}

/// Whether some name of `r` has the key of `name`.
pub open spec fn key_listed(r: Seq<Seq<char>>, name: Seq<char>) -> bool {
    exists|i: int| 0 <= i < r.len() && #[trigger] principal_key(r[i]) == principal_key(name)
}

/// Whether every name of `r` is a principal of `tokens` that no earlier principal shares a key
/// with.
#[verifier::opaque]
pub open spec fn entries_first(tokens: Seq<Seq<char>>, r: Seq<Seq<char>>) -> bool {
    forall|i: int| 0 <= i < r.len() ==> #[trigger] is_first_principal(tokens, r[i])
}

/// Whether the key of every principal of `tokens` is the key of a name of `r`.
#[verifier::opaque]
pub open spec fn keys_covered(tokens: Seq<Seq<char>>, r: Seq<Seq<char>>) -> bool {
    forall|k: int| 0 <= k < tokens.len() ==> #[trigger] key_listed(r, tokens[k])
}

/// Whether `r` is what `parse_principals` gives for the principals `tokens`: strictly sorted by
/// lowered name, each entry the first principal with its lowered name, every principal's lowered
/// name present.
pub open spec fn is_principal_list(tokens: Seq<Seq<char>>, r: Seq<Seq<char>>) -> bool {
    &&& sorted_by_key(r)
    &&& entries_first(tokens, r)
    &&& keys_covered(tokens, r)
}

/// The views of a list of strings.
pub open spec fn strings_view(v: Seq<String>) -> Seq<Seq<char>> {
    v.map_values(|s: String| s@)
}

/// The separated items of `s`.
fn split_segments(s: &Vec<char>) -> (res: Vec<Vec<char>>)
    ensures
        crate::ip::parts_view(res@) == segments(s@),
{
    let mut done: Vec<Vec<char>> = Vec::new();
    let mut current: Vec<char> = Vec::new();
    let mut i: usize = 0;
    while i < s.len()
        invariant
            i <= s.len(),
            crate::ip::parts_view(done@).push(current@) == segments(s@.take(i as int)),
        decreases s.len() - i,
    {
        let c = s[i];
        let ghost prev_done = done@;
        let ghost prev_current = current@;
        assert(s@.take(i + 1).drop_last() =~= s@.take(i as int));
        if c == ',' || c == ';' || c == '\n' || c == '\r' {
            done.push(current);
            current = Vec::new();
            assert(crate::ip::parts_view(done@) =~= crate::ip::parts_view(prev_done).push(prev_current));
        } else {
            current.push(c);
        }
        i = i + 1;
        assert(crate::ip::parts_view(done@).push(current@) =~= segments(s@.take(i as int)));
    }
    assert(s@.take(i as int) =~= s@);
    done.push(current);
    done
}

/// The principals written in `value`, trimmed and without empty ones.
fn tokens_of(value: &str) -> (res: Vec<Vec<char>>)
    ensures
        crate::ip::parts_view(res@) == principal_tokens(value@),
{
    let chars = chars_of(value);
    let segs = split_segments(&chars);
    let ghost sv = crate::ip::parts_view(segs@);
    let mut out: Vec<Vec<char>> = Vec::new();
    let mut i: usize = 0;
    while i < segs.len()
        invariant
            sv == crate::ip::parts_view(segs@),
            i <= segs.len(),
            crate::ip::parts_view(out@) == nonblank_trimmed(sv.take(i as int)),
        decreases segs.len() - i,
    {
        let t = trim_chars(&segs[i]);
        let ghost prev = crate::ip::parts_view(out@);
        assert(sv.take(i + 1).drop_last() =~= sv.take(i as int));
        assert(sv.take(i + 1).last() == segs@[i as int]@);
        if t.len() > 0 {
            out.push(t);
            assert(crate::ip::parts_view(out@) =~= prev.push(t@));
        }
        i = i + 1;
    }
    assert(sv.take(i as int) =~= sv);
    out
}

/// The first principal of a list stays first of its key when the list grows.
proof fn lemma_first_of_key_prefix(tokens: Seq<Seq<char>>, m: int, q: int)
    requires
        0 <= q < m < tokens.len(),
        first_of_key(tokens.take(m), q),
    ensures
        first_of_key(tokens.take(m + 1), q),
{
    let prefix = tokens.take(m);
    assert(tokens.take(m + 1)[q] == prefix[q]);
    assert forall|w: int| 0 <= w < q implies principal_key(#[trigger] tokens.take(m + 1)[w]) != principal_key(
        tokens.take(m + 1)[q],
    ) by {
        assert(tokens.take(m + 1)[w] == prefix[w]);
    }
}

/// A list whose entries are first of their keys among `tokens.take(m)` stays so among
/// `tokens.take(m + 1)`.
proof fn lemma_entries_extend(tokens: Seq<Seq<char>>, m: int, r: Seq<Seq<char>>)
    requires
        0 <= m < tokens.len(),
        entries_first(tokens.take(m), r),
    ensures
        entries_first(tokens.take(m + 1), r),
{
    reveal(entries_first);
    let prefix = tokens.take(m);
    let next = tokens.take(m + 1);
    assert forall|i: int| 0 <= i < r.len() implies #[trigger] is_first_principal(next, r[i]) by {
        assert(is_first_principal(prefix, r[i]));
        let q = choose|q: int|
            #![trigger prefix[q]]
            0 <= q < prefix.len() && prefix[q] == r[i] && first_of_key(prefix, q);
        lemma_first_of_key_prefix(tokens, m, q);
        assert(next[q] == prefix[q]);
    }
}

/// A principal whose key is already listed leaves the list a principal list.
proof fn lemma_list_keeps_known(tokens: Seq<Seq<char>>, m: int, r: Seq<Seq<char>>, p: int)
    requires
        0 <= m < tokens.len(),
        0 <= p < r.len(),
        principal_key(r[p]) == principal_key(tokens[m]),
        is_principal_list(tokens.take(m), r),
    ensures
        is_principal_list(tokens.take(m + 1), r),
{
    lemma_entries_extend(tokens, m, r);
    reveal(keys_covered);
    let prefix = tokens.take(m);
    let next = tokens.take(m + 1);
    assert forall|q: int| 0 <= q < next.len() implies #[trigger] key_listed(r, next[q]) by {
        if q < m {
            assert(next[q] == prefix[q]);
            assert(key_listed(r, prefix[q]));
        } else {
            assert(principal_key(r[p]) == principal_key(next[q]));
        }
    }
}

/// Where `key` sorts in a list sorted by key, no name of the list has that key.
proof fn lemma_key_absent(r: Seq<Seq<char>>, p: int, key: Seq<char>)
    requires
        0 <= p <= r.len(),
        sorted_by_key(r),
        forall|i: int| 0 <= i < p ==> lex_lt(principal_key(#[trigger] r[i]), key),
        p < r.len() ==> lex_lt(key, principal_key(r[p])),
    ensures
        forall|i: int| 0 <= i < r.len() ==> principal_key(#[trigger] r[i]) != key,
        forall|j: int| p <= j < r.len() ==> lex_lt(key, principal_key(#[trigger] r[j])),
{
    reveal(sorted_by_key);
    assert forall|j: int| p <= j < r.len() implies lex_lt(key, principal_key(#[trigger] r[j])) by {
        if j > p {
            lemma_lex_transitive(key, principal_key(r[p]), principal_key(r[j]));
        }
    }
    assert forall|i: int| 0 <= i < r.len() implies principal_key(#[trigger] r[i]) != key by {
        lemma_lex_irreflexive(key);
    }
}

/// Putting a name where its key sorts keeps a list sorted by key.
proof fn lemma_sorted_insert(r: Seq<Seq<char>>, p: int, t: Seq<char>)
    requires
        0 <= p <= r.len(),
        sorted_by_key(r),
        forall|i: int| 0 <= i < p ==> lex_lt(principal_key(#[trigger] r[i]), principal_key(t)),
        forall|j: int| p <= j < r.len() ==> lex_lt(principal_key(t), principal_key(#[trigger] r[j])),
    ensures
        sorted_by_key(r.insert(p, t)),
{
    reveal(sorted_by_key);
    let nv = r.insert(p, t);
    let key = principal_key(t);
    assert forall|i: int, j: int| 0 <= i < j < nv.len() implies lex_lt(
        principal_key(#[trigger] nv[i]),
        principal_key(#[trigger] nv[j]),
    ) by {
        if j < p {
            assert(nv[i] == r[i] && nv[j] == r[j]);
        } else if j == p {
            assert(nv[i] == r[i]);
        } else if i < p {
            assert(nv[i] == r[i] && nv[j] == r[j - 1]);
            lemma_lex_transitive(principal_key(r[i]), key, principal_key(r[j - 1]));
        } else if i == p {
            assert(nv[j] == r[j - 1]);
        } else {
            assert(nv[i] == r[i - 1] && nv[j] == r[j - 1]);
        }
    }
}

/// A principal whose key no earlier principal has is first of its key.
proof fn lemma_new_key_first(tokens: Seq<Seq<char>>, m: int, r: Seq<Seq<char>>)
    requires
        0 <= m < tokens.len(),
        keys_covered(tokens.take(m), r),
        forall|i: int| 0 <= i < r.len() ==> principal_key(#[trigger] r[i]) != principal_key(tokens[m]),
    ensures
        is_first_principal(tokens.take(m + 1), tokens[m]),
{
    reveal(keys_covered);
    let prefix = tokens.take(m);
    let next = tokens.take(m + 1);
    assert(next[m] == tokens[m]);
    assert forall|w: int| 0 <= w < m implies principal_key(#[trigger] next[w]) != principal_key(
        next[m],
    ) by {
        assert(next[w] == prefix[w]);
        assert(key_listed(r, prefix[w]));
    }
    assert(first_of_key(next, m));
}

/// Inserting a principal that is first of its key keeps the list's entries first of their keys.
proof fn lemma_entries_insert(tokens: Seq<Seq<char>>, m: int, r: Seq<Seq<char>>, p: int)
    requires
        0 <= m < tokens.len(),
        0 <= p <= r.len(),
        entries_first(tokens.take(m), r),
        is_first_principal(tokens.take(m + 1), tokens[m]),
    ensures
        entries_first(tokens.take(m + 1), r.insert(p, tokens[m])),
{
    lemma_entries_extend(tokens, m, r);
    reveal(entries_first);
    let next = tokens.take(m + 1);
    let nv = r.insert(p, tokens[m]);
    assert forall|i: int| 0 <= i < nv.len() implies #[trigger] is_first_principal(next, nv[i]) by {
        if i < p {
            assert(nv[i] == r[i]);
        } else if i > p {
            assert(nv[i] == r[i - 1]);
        }
    }
}

/// Inserting a principal keeps every key covered.
proof fn lemma_covered_insert(tokens: Seq<Seq<char>>, m: int, r: Seq<Seq<char>>, p: int)
    requires
        0 <= m < tokens.len(),
        0 <= p <= r.len(),
        keys_covered(tokens.take(m), r),
    ensures
        keys_covered(tokens.take(m + 1), r.insert(p, tokens[m])),
{
    reveal(keys_covered);
    let prefix = tokens.take(m);
    let next = tokens.take(m + 1);
    let nv = r.insert(p, tokens[m]);
    assert forall|q: int| 0 <= q < next.len() implies #[trigger] key_listed(nv, next[q]) by {
        if q == m {
            assert(nv[p] == next[m]);
            assert(principal_key(nv[p]) == principal_key(next[q]));
        } else {
            assert(next[q] == prefix[q]);
            assert(key_listed(r, prefix[q]));
            let i = choose|i: int|
                0 <= i < r.len() && #[trigger] principal_key(r[i]) == principal_key(prefix[q]);
            if i < p {
                assert(nv[i] == r[i]);
                assert(principal_key(nv[i]) == principal_key(next[q]));
            } else {
                assert(nv[i + 1] == r[i]);
                assert(principal_key(nv[i + 1]) == principal_key(next[q]));
            }
        }
    }
}

/// A principal with a new key, put where that key sorts, keeps the list a principal list.
proof fn lemma_list_insert_new(tokens: Seq<Seq<char>>, m: int, r: Seq<Seq<char>>, p: int)
    requires
        0 <= m < tokens.len(),
        0 <= p <= r.len(),
        forall|i: int| 0 <= i < p ==> lex_lt(principal_key(#[trigger] r[i]), principal_key(tokens[m])),
        p < r.len() ==> lex_lt(principal_key(tokens[m]), principal_key(r[p])),
        is_principal_list(tokens.take(m), r),
    ensures
        is_principal_list(tokens.take(m + 1), r.insert(p, tokens[m])),
{
    lemma_key_absent(r, p, principal_key(tokens[m]));
    lemma_sorted_insert(r, p, tokens[m]);
    lemma_new_key_first(tokens, m, r);
    lemma_entries_insert(tokens, m, r, p);
    lemma_covered_insert(tokens, m, r, p);
}

/// Inserts principal `tokens[m]` into the sorted list `r` (with lowered names `keys`), unless
/// its lowered name is already there.
fn insert_principal(
    r: &mut Vec<Vec<char>>,
    keys: &mut Vec<Vec<char>>,
    Ghost(tokens): Ghost<Seq<Seq<char>>>,
    Ghost(m): Ghost<int>,
    token: Vec<char>,
)
    requires
        0 <= m < tokens.len(),
        tokens[m] == token@,
        old(r)@.len() == old(keys)@.len(),
        forall|i: int|
            0 <= i < old(keys)@.len() ==> (#[trigger] old(keys)@[i])@ == principal_key(old(r)@[i]@),
        is_principal_list(tokens.take(m), crate::ip::parts_view(old(r)@)),
    ensures
        final(r)@.len() == final(keys)@.len(),
        forall|i: int|
            0 <= i < final(keys)@.len() ==> (#[trigger] final(keys)@[i])@ == principal_key(
                final(r)@[i]@,
            ),
        is_principal_list(tokens.take(m + 1), crate::ip::parts_view(final(r)@)),
{
    let ghost rv = crate::ip::parts_view(r@);
    let key = lower_chars(&token);
    assert(key@ == principal_key(tokens[m])) by {
        reveal(principal_key);
    }
    let mut p: usize = 0;
    while p < keys.len() && chars_less(&keys[p], &key)
        invariant
            p <= keys@.len(),
            keys@.len() == r@.len(),
            rv == crate::ip::parts_view(r@),
            forall|i: int| 0 <= i < keys@.len() ==> (#[trigger] keys@[i])@ == principal_key(r@[i]@),
            forall|i: int| 0 <= i < p ==> lex_lt(principal_key(#[trigger] rv[i]), key@),
        decreases keys@.len() - p,
    {
        assert(rv[p as int] == r@[p as int]@);
        p = p + 1;
    }
    if p < keys.len() && chars_equal(&keys[p], &key) {
        proof {
            assert(rv[p as int] == r@[p as int]@);
            lemma_list_keeps_known(tokens, m, rv, p as int);
        }
        return;
    }
    proof {
        if p < rv.len() {
            assert(rv[p as int] == r@[p as int]@);
            assert(keys@[p as int]@ == principal_key(rv[p as int]));
            lemma_lex_total(principal_key(rv[p as int]), key@);
        }
        lemma_list_insert_new(tokens, m, rv, p as int);
    }
    let ghost old_keys = keys@;
    r.insert(p, token);
    keys.insert(p, key);
    assert(crate::ip::parts_view(r@) =~= rv.insert(p as int, tokens[m]));
    assert forall|i: int| 0 <= i < keys@.len() implies (#[trigger] keys@[i])@ == principal_key(
        r@[i]@,
    ) by {
        if i < p {
            assert(keys@[i] == old_keys[i]);
        } else if i > p {
            assert(keys@[i] == old_keys[i - 1]);
        }
    }
}

/// The principals of an edited list: items separated by commas, semicolons or line breaks,
/// trimmed, without empty ones, sorted by name ignoring ASCII case, and with only the first of
/// names that differ only in ASCII case kept.
pub fn parse_principals(value: &str) -> (output: Vec<String>)
    ensures
        is_principal_list(principal_tokens(value@), strings_view(output@)),
{
    let tokens = tokens_of(value);
    let ghost tv = crate::ip::parts_view(tokens@);
    let mut r: Vec<Vec<char>> = Vec::new();
    let mut keys: Vec<Vec<char>> = Vec::new();
    let mut m: usize = 0;
    proof {
        reveal(sorted_by_key);
        reveal(entries_first);
        reveal(keys_covered);
    }
    while m < tokens.len()
        invariant
            tv == crate::ip::parts_view(tokens@),
            m <= tokens.len(),
            r@.len() == keys@.len(),
            forall|i: int| 0 <= i < keys@.len() ==> (#[trigger] keys@[i])@ == principal_key(r@[i]@),
            is_principal_list(tv.take(m as int), crate::ip::parts_view(r@)),
        decreases tokens.len() - m,
    {
        let token = crate::text::sub_chars(&tokens[m], 0, tokens[m].len());
        assert(token@ =~= tv[m as int]);
        insert_principal(&mut r, &mut keys, Ghost(tv), Ghost(m as int), token);
        m = m + 1;
    }
    assert(tv.take(m as int) =~= tv);
    let mut output: Vec<String> = Vec::new();
    let mut i: usize = 0;
    while i < r.len()
        invariant
            i <= r@.len(),
            strings_view(output@) == crate::ip::parts_view(r@).take(i as int),
        decreases r@.len() - i,
    {
        let s = string_from_chars(&r[i]);
        let ghost before = output@;
        output.push(s);
        assert(output@ =~= before.push(s));
        assert(strings_view(output@) =~= strings_view(before).push(r@[i as int]@));
        assert(crate::ip::parts_view(r@).take(i + 1) =~= crate::ip::parts_view(r@).take(
            i as int,
        ).push(r@[i as int]@));
        i = i + 1;
        assert(strings_view(output@) =~= crate::ip::parts_view(r@).take(i as int));
    }
    assert(crate::ip::parts_view(r@).take(i as int) =~= crate::ip::parts_view(r@));
    output
}


/// Two decimal digits of `n` (below one hundred), with a leading zero.
pub open spec fn two_digits(n: nat) -> Seq<char> {
    seq![digit_char(n / 10), digit_char(n % 10)]
}

/// The time of day part of a duration of `total` seconds: `hh:mm:ss`.
pub open spec fn clock_text(total: nat) -> Seq<char> {
    two_digits((total % 86400) / 3600) + seq![':'] + two_digits((total % 3600) / 60) + seq![':']
        + two_digits(total % 60)
}

/// A duration of `total` seconds as shown to the user: `hh:mm:ss`, preceded by the number of
/// whole days and `天 ` when there is at least one.
pub open spec fn duration_text(total: nat) -> Seq<char> {
    if total / 86400 > 0 {
        decimal(total / 86400) + seq!['天', ' '] + clock_text(total)
    } else {
        clock_text(total)
    }
}

/// Appends the two digits of `n`.
fn push_two_digits(out: &mut Vec<char>, n: u64)
    requires
        n < 100,
    ensures
        final(out)@ == old(out)@ + two_digits(n as nat),
{
    let tens: u8 = (n / 10) as u8 + 48;
    let ones: u8 = (n % 10) as u8 + 48;
    out.push(tens as char);
    out.push(ones as char);
    assert(final(out)@ =~= old(out)@ + two_digits(n as nat)) by {
        assert(final(out)@ =~= old(out)@.push(tens as char).push(ones as char));
    }
}

/// Formats a duration in seconds as `[D天 ]hh:mm:ss`.
pub fn format_duration(seconds: u64) -> (res: String)
    ensures
        res@ == duration_text(seconds as nat),
{
    let days = seconds / 86_400;
    let hours = (seconds % 86_400) / 3_600;
    let minutes = (seconds % 3_600) / 60;
    let secs = seconds % 60;
    let mut out: Vec<char> = Vec::new();
    if days > 0 {
        push_decimal(&mut out, days);
        out.push('天');
        out.push(' ');
    }
    let ghost lead = out@;
    push_two_digits(&mut out, hours);
    out.push(':');
    push_two_digits(&mut out, minutes);
    out.push(':');
    push_two_digits(&mut out, secs);
    assert(out@ =~= lead + clock_text(seconds as nat));
    assert(out@ =~= duration_text(seconds as nat));
    string_from_chars(&out)
}

/// An ASCII lower-case letter or digit.
pub open spec fn is_id_char(c: char) -> bool {
    ('a' <= c <= 'z') || ('0' <= c <= '9')
}

/// Whether `id` is `prefix`, a hyphen and `count` lower-case letters or digits.
pub open spec fn has_random_suffix(prefix: Seq<char>, id: Seq<char>, count: nat) -> bool {
    &&& id.len() == prefix.len() + 1 + count
    &&& id.take(prefix.len() as int) == prefix
    &&& id[prefix.len() as int] == '-'
    &&& forall|i: int| prefix.len() < i < id.len() ==> is_id_char(#[trigger] id[i])
}

/// Whether `id` is `prefix`, a hyphen and ten lower-case letters or digits.
pub open spec fn is_generated_id(prefix: Seq<char>, id: Seq<char>) -> bool {
    has_random_suffix(prefix, id, 10)
}

/// Draws `len` characters from `rand`'s `Alphanumeric` distribution with the thread-local
/// generator. What is drawn is left open; stated is what holds of every draw: the length, and
/// that each character is an ASCII letter or digit. Left unsaid: the first use on a thread panics
/// when the operating system's random source cannot be read, which no argument decides.
#[verifier::external_body]
pub(crate) fn random_alphanumeric(len: usize) -> (res: String)
    ensures
        res@.len() == len,
        forall|i: int| 0 <= i < len ==> is_ascii_alnum(#[trigger] res@[i]),
{
    rand::distr::Alphanumeric.sample_string(&mut rand::rng(), len)
}

/// `prefix`, a hyphen and `drawn` with its ASCII letters lowered.
pub fn suffixed_id(prefix: &str, drawn: &str) -> (res: String)
    ensures
        res@ == prefix@.push('-') + ascii_lower(drawn@),
{
    let raw = chars_of(drawn);
    let suffix = lower_chars(&raw);
    let mut out = chars_of(prefix);
    let ghost head = out@;
    out.push('-');
    let mut i: usize = 0;
    while i < suffix.len()
        invariant
            i <= suffix.len(),
            out@ == head.push('-') + suffix@.take(i as int),
        decreases suffix.len() - i,
    {
        out.push(suffix[i]);
        i = i + 1;
        assert(out@ =~= head.push('-') + suffix@.take(i as int));
    }
    assert(suffix@.take(suffix.len() as int) =~= suffix@);
    string_from_chars(&out)
}

/// `prefix`, a hyphen and `count` random lower-case letters or digits: the draw of
/// `random_alphanumeric`, lowered by `suffixed_id`.
pub fn with_random_suffix(prefix: &str, count: usize) -> (res: String)
    ensures
        has_random_suffix(prefix@, res@, count as nat),
{
    let drawn = random_alphanumeric(count);
    let res = suffixed_id(prefix, drawn.as_str());
    proof {
        let head = prefix@.push('-');
        assert(res@.take(prefix@.len() as int) =~= prefix@) by {
            assert forall|k: int| 0 <= k < prefix@.len() implies res@[k] == prefix@[k] by {
                assert(res@[k] == head[k]);
            }
        }
        assert(res@[prefix@.len() as int] == head[prefix@.len() as int]);
        assert forall|k: int| prefix@.len() < k < res@.len() implies is_id_char(#[trigger] res@[k]) by {
            assert(res@[k] == ascii_lower(drawn@)[k - head.len()]);
            assert(is_ascii_alnum(drawn@[k - head.len()]));
        }
    }
    res
}

/// A fresh identifier: `prefix`, a hyphen and ten random lower-case letters or digits.
pub fn new_id(prefix: &str) -> (res: String)
    ensures
        is_generated_id(prefix@, res@),
{
    with_random_suffix(prefix, 10)
}


/// A principal as a list holds it: not empty, already trimmed, without separators.
pub open spec fn is_clean_principal(x: Seq<char>) -> bool {
    &&& x.len() > 0
    &&& trim(x) == x
    &&& forall|i: int| 0 <= i < x.len() ==> !is_principal_separator(#[trigger] x[i])
}

/// Trimming a trimmed string changes nothing.
proof fn lemma_trim_idempotent(s: Seq<char>)
    ensures
        trim(trim(s)) == trim(s),
{
    let rest = s.skip(leading_ws(s) as int);
    let t = trim(s);
    lemma_leading_ws_bound(s);
    lemma_trailing_ws_bound(rest);
    if t.len() > 0 {
        assert(t[0] == s[leading_ws(s) as int]);
        assert(leading_ws(t) == 0);
        assert(t.last() == rest[rest.len() - trailing_ws(rest) - 1]);
        assert(trailing_ws(t) == 0);
        assert(t.skip(0).take(t.len() as int) =~= t);
    } else {
        assert(trim(t) =~= t);
    }
}

/// The segments of a string hold no separator.
proof fn lemma_segments_clean(s: Seq<char>)
    ensures
        forall|k: int, i: int|
            0 <= k < segments(s).len() && 0 <= i < segments(s)[k].len() ==> !is_principal_separator(
                #[trigger] segments(s)[k][i],
            ),
    decreases s.len(),
{
    if s.len() > 0 {
        lemma_segments_clean(s.drop_last());
        lemma_segments_nonempty(s.drop_last());
    }
}

/// The principals read from any text are clean.
proof fn lemma_tokens_clean(segs: Seq<Seq<char>>)
    requires
        forall|k: int, i: int|
            0 <= k < segs.len() && 0 <= i < segs[k].len() ==> !is_principal_separator(
                #[trigger] segs[k][i],
            ),
    ensures
        forall|k: int| 0 <= k < nonblank_trimmed(segs).len() ==> is_clean_principal(
            #[trigger] nonblank_trimmed(segs)[k],
        ),
    decreases segs.len(),
{
    if segs.len() > 0 {
        let last = segs.last();
        assert forall|k: int, i: int|
            0 <= k < segs.drop_last().len() && 0 <= i < segs.drop_last()[k].len() implies !is_principal_separator(
                #[trigger] segs.drop_last()[k][i],
            ) by {
            assert(segs.drop_last()[k] == segs[k]);
        }
        lemma_tokens_clean(segs.drop_last());
        let prev = nonblank_trimmed(segs.drop_last());
        let t = trim(last);
        if t.len() > 0 {
            lemma_trim_idempotent(last);
            let lead = leading_ws(last) as int;
            lemma_leading_ws_bound(last);
            let rest = last.skip(lead);
            lemma_trailing_ws_bound(rest);
            assert forall|i: int| 0 <= i < t.len() implies !is_principal_separator(#[trigger] t[i]) by {
                assert(t[i] == rest[i]);
                assert(rest[i] == last[lead + i]);
                assert(segs[segs.len() - 1][lead + i] == last[lead + i]);
            }
            let nb = nonblank_trimmed(segs);
            assert(nb == prev.push(t));
            assert forall|k: int| 0 <= k < nb.len() implies is_clean_principal(#[trigger] nb[k]) by {
                if k < prev.len() {
                    assert(nb[k] == prev[k]);
                } else {
                    assert(nb[k] == t);
                }
            }
        }
    }
}

/// Appending characters that are not separators extends the last segment.
proof fn lemma_segments_extend(p: Seq<char>, q: Seq<char>)
    requires
        forall|i: int| 0 <= i < q.len() ==> !is_principal_separator(#[trigger] q[i]),
    ensures
        segments(p + q) == segments(p).update(
            segments(p).len() - 1,
            segments(p).last() + q,
        ),
    decreases q.len(),
{
    lemma_segments_nonempty(p);
    if q.len() == 0 {
        assert(p + q =~= p);
        assert(segments(p).last() + q =~= segments(p).last());
        assert(segments(p).update(segments(p).len() - 1, segments(p).last()) =~= segments(p));
    } else {
        assert forall|i: int| 0 <= i < q.drop_last().len() implies !is_principal_separator(
            #[trigger] q.drop_last()[i],
        ) by {
            assert(q.drop_last()[i] == q[i]);
        }
        lemma_segments_extend(p, q.drop_last());
        assert(!is_principal_separator(q[q.len() - 1]));
        assert((p + q).drop_last() =~= p + q.drop_last());
        assert((p + q).last() == q.last());
        assert((segments(p).last() + q.drop_last()).push(q.last()) =~= segments(p).last() + q);
        let r = segments(p + q.drop_last());
        assert(segments(p + q) == r.update(r.len() - 1, r.last().push(q.last())));
        assert(segments(p + q) =~= segments(p).update(segments(p).len() - 1, segments(p).last() + q));
    }
}

/// A clean principal list written one per line reads back as the same principals.
proof fn lemma_joined_tokens(r: Seq<Seq<char>>)
    requires
        forall|k: int| 0 <= k < r.len() ==> is_clean_principal(#[trigger] r[k]),
    ensures
        principal_tokens(joined(r, "\r\n"@)) == r,
    decreases r.len(),
{
    reveal_strlit("\r\n");
    let sep = "\r\n"@;
    assert(trim(Seq::<char>::empty()) =~= Seq::<char>::empty());
    assert(nonblank_trimmed(Seq::<Seq<char>>::empty()) == Seq::<Seq<char>>::empty());
    if r.len() == 0 {
        let one = seq![Seq::<char>::empty()];
        assert(segments(Seq::<char>::empty()) =~= one);
        assert(one.drop_last() =~= Seq::<Seq<char>>::empty());
        assert(one.last() == Seq::<char>::empty());
        assert(nonblank_trimmed(one) =~= Seq::<Seq<char>>::empty());
        assert(r =~= Seq::<Seq<char>>::empty());
    } else if r.len() == 1 {
        assert(segments(Seq::<char>::empty()) =~= seq![Seq::<char>::empty()]);
        lemma_segments_extend(Seq::empty(), r[0]);
        assert(Seq::<char>::empty() + r[0] =~= r[0]);
        let segs = segments(r[0]);
        assert(segs =~= seq![r[0]]);
        assert(segs.drop_last() =~= Seq::<Seq<char>>::empty());
        assert(segs.last() == r[0]);
        assert(nonblank_trimmed(segs) =~= seq![r[0]]);
        assert(r =~= seq![r[0]]);
    } else {
        let front = r.drop_last();
        let last = r.last();
        assert forall|k: int| 0 <= k < front.len() implies is_clean_principal(#[trigger] front[k]) by {
            assert(front[k] == r[k]);
        }
        lemma_joined_tokens(front);
        let jf = joined(front, sep);
        let with_sep = jf.push('\r').push('\n');
        assert(jf + sep =~= with_sep);
        lemma_segments_nonempty(jf);
        assert(with_sep.drop_last() =~= jf.push('\r'));
        assert(jf.push('\r').drop_last() =~= jf);
        assert(segments(jf.push('\r')) == segments(jf).push(Seq::empty()));
        assert(segments(with_sep) == segments(jf).push(Seq::empty()).push(Seq::empty()));
        lemma_segments_extend(with_sep, last);
        let segs = segments(with_sep + last);
        let expected = segments(jf).push(Seq::empty()).push(last);
        assert(Seq::<char>::empty() + last =~= last);
        assert(segs =~= expected);
        assert(trim(Seq::<char>::empty()) =~= Seq::<char>::empty());
        assert(expected.drop_last() =~= segments(jf).push(Seq::empty()));
        assert(expected.drop_last().drop_last() =~= segments(jf));
        assert(nonblank_trimmed(segments(jf).push(Seq::empty())) == nonblank_trimmed(segments(jf)));
        assert(nonblank_trimmed(expected) == front.push(last));
        assert(r =~= front.push(last));
    }
}

/// The set of keys of the names of `r`.
pub open spec fn key_set(r: Seq<Seq<char>>) -> Set<Seq<char>> {
    Set::new(|k: Seq<char>| exists|i: int| 0 <= i < r.len() && principal_key(r[i]) == k)
}

/// Two lists sorted by key, with the same keys, whose names are fixed by their keys, are equal.
proof fn lemma_sorted_lists_equal(
    r1: Seq<Seq<char>>,
    r2: Seq<Seq<char>>,
    name_of: spec_fn(Seq<char>) -> Seq<char>,
)
    requires
        sorted_by_key(r1),
        sorted_by_key(r2),
        key_set(r1) == key_set(r2),
        forall|i: int| 0 <= i < r1.len() ==> #[trigger] r1[i] == name_of(principal_key(r1[i])),
        forall|i: int| 0 <= i < r2.len() ==> #[trigger] r2[i] == name_of(principal_key(r2[i])),
    ensures
        r1 == r2,
    decreases r1.len(),
{
    reveal(sorted_by_key);
    if r1.len() == 0 {
        if r2.len() > 0 {
            assert(key_set(r2).contains(principal_key(r2[0])));
        }
        assert(r1 =~= r2);
    } else {
        if r2.len() == 0 {
            assert(key_set(r1).contains(principal_key(r1[0])));
        }
        let n1 = r1.len() - 1;
        let n2 = r2.len() - 1;
        let k1 = principal_key(r1[n1]);
        let k2 = principal_key(r2[n2]);
        assert(key_set(r1).contains(k1));
        assert(key_set(r2).contains(k2));
        if k1 != k2 {
            let j = choose|j: int| 0 <= j < r2.len() && principal_key(r2[j]) == k1;
            let h = choose|h: int| 0 <= h < r1.len() && principal_key(r1[h]) == k2;
            assert(j < n2);
            assert(h < n1);
            assert(lex_lt(principal_key(r2[j]), principal_key(r2[n2])));
            assert(lex_lt(principal_key(r1[h]), principal_key(r1[n1])));
            lemma_lex_transitive(k1, k2, k1);
            lemma_lex_irreflexive(k1);
        }
        assert(r1[n1] == r2[n2]);
        let d1 = r1.drop_last();
        let d2 = r2.drop_last();
        assert forall|k: Seq<char>| key_set(d1).contains(k) <==> key_set(d2).contains(k) by {
            if key_set(d1).contains(k) {
                let i = choose|i: int| 0 <= i < d1.len() && principal_key(d1[i]) == k;
                assert(principal_key(r1[i]) == k);
                assert(lex_lt(principal_key(r1[i]), k1));
                assert(key_set(r2).contains(k));
                let j = choose|j: int| 0 <= j < r2.len() && principal_key(r2[j]) == k;
                if j == n2 {
                    lemma_lex_irreflexive(k1);
                }
                assert(principal_key(d2[j]) == k);
            }
            if key_set(d2).contains(k) {
                let j = choose|j: int| 0 <= j < d2.len() && principal_key(d2[j]) == k;
                assert(principal_key(r2[j]) == k);
                assert(lex_lt(principal_key(r2[j]), k2));
                assert(key_set(r1).contains(k));
                let i = choose|i: int| 0 <= i < r1.len() && principal_key(r1[i]) == k;
                if i == n1 {
                    lemma_lex_irreflexive(k2);
                }
                assert(principal_key(d1[i]) == k);
            }
        }
        assert(key_set(d1) =~= key_set(d2));
        assert forall|i: int| 0 <= i < d1.len() implies #[trigger] d1[i] == name_of(principal_key(d1[i])) by {
            assert(d1[i] == r1[i]);
        }
        assert forall|i: int| 0 <= i < d2.len() implies #[trigger] d2[i] == name_of(principal_key(d2[i])) by {
            assert(d2[i] == r2[i]);
        }
        assert forall|i: int, j: int| 0 <= i < j < d1.len() implies lex_lt(principal_key(#[trigger] d1[i]), principal_key(#[trigger] d1[j])) by {
            assert(d1[i] == r1[i] && d1[j] == r1[j]);
        }
        assert forall|i: int, j: int| 0 <= i < j < d2.len() implies lex_lt(principal_key(#[trigger] d2[i]), principal_key(#[trigger] d2[j])) by {
            assert(d2[i] == r2[i] && d2[j] == r2[j]);
        }
        lemma_sorted_lists_equal(d1, d2, name_of);
        assert(r1 =~= d1.push(r1[n1]));
        assert(r2 =~= d2.push(r2[n2]));
    }
}


/// In a list sorted by key, a key names one position.
proof fn lemma_sorted_keys_distinct(r: Seq<Seq<char>>, i: int, j: int)
    requires
        sorted_by_key(r),
        0 <= i < r.len(),
        0 <= j < r.len(),
        principal_key(r[i]) == principal_key(r[j]),
    ensures
        i == j,
{
    reveal(sorted_by_key);
    if i < j {
        assert(lex_lt(principal_key(r[i]), principal_key(r[j])));
        lemma_lex_irreflexive(principal_key(r[i]));
    } else if j < i {
        assert(lex_lt(principal_key(r[j]), principal_key(r[i])));
        lemma_lex_irreflexive(principal_key(r[i]));
    }
}

/// A principal list read from a text, written back one principal per line (as the share editor
/// shows it) and read again, is the same list.
pub proof fn lemma_principals_edit_round_trip(
    text: Seq<char>,
    r: Seq<Seq<char>>,
    again: Seq<Seq<char>>,
)
    requires
        is_principal_list(principal_tokens(text), r),
        is_principal_list(principal_tokens(joined(r, "\r\n"@)), again),
    ensures
        again == r,
{
    let tokens = principal_tokens(text);
    lemma_segments_clean(text);
    lemma_tokens_clean(segments(text));
    reveal(entries_first);
    reveal(keys_covered);
    assert forall|i: int| 0 <= i < r.len() implies is_clean_principal(#[trigger] r[i]) by {
        assert(is_first_principal(tokens, r[i]));
        let m = choose|m: int|
            #![trigger tokens[m]]
            0 <= m < tokens.len() && tokens[m] == r[i] && first_of_key(tokens, m);
        assert(is_clean_principal(tokens[m]));
    }
    lemma_joined_tokens(r);
    assert(is_principal_list(r, again));
    let name_of = |k: Seq<char>| r[choose|i: int| 0 <= i < r.len() && principal_key(r[i]) == k];
    assert forall|i: int| 0 <= i < r.len() implies #[trigger] r[i] == name_of(principal_key(r[i])) by {
        let j = choose|j: int| 0 <= j < r.len() && principal_key(r[j]) == principal_key(r[i]);
        lemma_sorted_keys_distinct(r, i, j);
    }
    assert forall|i: int| 0 <= i < again.len() implies #[trigger] again[i] == name_of(
        principal_key(again[i]),
    ) by {
        assert(is_first_principal(r, again[i]));
        let m = choose|m: int|
            #![trigger r[m]]
            0 <= m < r.len() && r[m] == again[i] && first_of_key(r, m);
        let j = choose|j: int| 0 <= j < r.len() && principal_key(r[j]) == principal_key(again[i]);
        lemma_sorted_keys_distinct(r, m, j);
    }
    assert forall|k: Seq<char>| key_set(again).contains(k) <==> key_set(r).contains(k) by {
        if key_set(again).contains(k) {
            let i = choose|i: int| 0 <= i < again.len() && principal_key(again[i]) == k;
            assert(is_first_principal(r, again[i]));
            let m = choose|m: int|
                #![trigger r[m]]
                0 <= m < r.len() && r[m] == again[i] && first_of_key(r, m);
            assert(principal_key(r[m]) == k);
        }
        if key_set(r).contains(k) {
            let m = choose|m: int| 0 <= m < r.len() && principal_key(r[m]) == k;
            assert(key_listed(again, r[m]));
            let i = choose|i: int| 0 <= i < again.len() && #[trigger] principal_key(again[i]) == principal_key(r[m]);
            assert(principal_key(again[i]) == k);
        }
    }
    assert(key_set(again) =~= key_set(r));
    lemma_sorted_lists_equal(again, r, name_of);
}


/// Two principals that are each the first with a key, and share it, are the same principal.
proof fn lemma_first_of_key_unique(tokens: Seq<Seq<char>>, m1: int, m2: int)
    requires
        0 <= m1 < tokens.len(),
        0 <= m2 < tokens.len(),
        first_of_key(tokens, m1),
        first_of_key(tokens, m2),
        principal_key(tokens[m1]) == principal_key(tokens[m2]),
    ensures
        m1 == m2,
{
    if m1 < m2 {
        assert(principal_key(tokens[m1]) != principal_key(tokens[m2]));
    } else if m2 < m1 {
        assert(principal_key(tokens[m2]) != principal_key(tokens[m1]));
    }
}

/// What `parse_principals` gives for a non-blank text with no comma, semicolon, carriage
/// return or line feed: that one principal, trimmed, its inner spaces kept.
pub proof fn lemma_single_principal_list(s: Seq<char>, r: Seq<Seq<char>>)
    requires
        forall|i: int|
            0 <= i < s.len() ==> #[trigger] s[i] != ',' && s[i] != ';' && s[i] != '\n' && s[i]
                != '\r',
        trim(s).len() > 0,
        is_principal_list(principal_tokens(s), r),
    ensures
        r == seq![trim(s)],
{
    lemma_principal_tokens_unseparated(s);
    let t = seq![trim(s)];
    reveal(sorted_by_key);
    reveal(entries_first);
    reveal(keys_covered);
    assert(is_first_principal(t, t[0]));
    assert(key_listed(t, t[0]));
    assert(is_principal_list(t, t));
    lemma_principal_list_unique(t, r, t);
}

/// The principals of a text determine its principal list: there is only one.
pub proof fn lemma_principal_list_unique(tokens: Seq<Seq<char>>, r1: Seq<Seq<char>>, r2: Seq<Seq<char>>)
    requires
        is_principal_list(tokens, r1),
        is_principal_list(tokens, r2),
    ensures
        r1 == r2,
{
    reveal(entries_first);
    reveal(keys_covered);
    let name_of = |k: Seq<char>|
        tokens[choose|m: int|
            0 <= m < tokens.len() && first_of_key(tokens, m) && principal_key(tokens[m]) == k];
    assert forall|i: int| 0 <= i < r1.len() implies #[trigger] r1[i] == name_of(principal_key(r1[i])) by {
        assert(is_first_principal(tokens, r1[i]));
        let m = choose|m: int|
            #![trigger tokens[m]]
            0 <= m < tokens.len() && tokens[m] == r1[i] && first_of_key(tokens, m);
        let c = choose|c: int|
            0 <= c < tokens.len() && first_of_key(tokens, c) && principal_key(tokens[c]) == principal_key(r1[i]);
        lemma_first_of_key_unique(tokens, m, c);
    }
    assert forall|i: int| 0 <= i < r2.len() implies #[trigger] r2[i] == name_of(principal_key(r2[i])) by {
        assert(is_first_principal(tokens, r2[i]));
        let m = choose|m: int|
            #![trigger tokens[m]]
            0 <= m < tokens.len() && tokens[m] == r2[i] && first_of_key(tokens, m);
        let c = choose|c: int|
            0 <= c < tokens.len() && first_of_key(tokens, c) && principal_key(tokens[c]) == principal_key(r2[i]);
        lemma_first_of_key_unique(tokens, m, c);
    }
    assert forall|k: Seq<char>| key_set(r1).contains(k) <==> key_set(r2).contains(k) by {
        if key_set(r1).contains(k) {
            let i = choose|i: int| 0 <= i < r1.len() && principal_key(r1[i]) == k;
            assert(is_first_principal(tokens, r1[i]));
            let m = choose|m: int|
                #![trigger tokens[m]]
                0 <= m < tokens.len() && tokens[m] == r1[i] && first_of_key(tokens, m);
            assert(key_listed(r2, tokens[m]));
            let j = choose|j: int| 0 <= j < r2.len() && #[trigger] principal_key(r2[j]) == principal_key(tokens[m]);
            assert(principal_key(r2[j]) == k);
        }
        if key_set(r2).contains(k) {
            let i = choose|i: int| 0 <= i < r2.len() && principal_key(r2[i]) == k;
            assert(is_first_principal(tokens, r2[i]));
            let m = choose|m: int|
                #![trigger tokens[m]]
                0 <= m < tokens.len() && tokens[m] == r2[i] && first_of_key(tokens, m);
            assert(key_listed(r1, tokens[m]));
            let j = choose|j: int| 0 <= j < r1.len() && #[trigger] principal_key(r1[j]) == principal_key(tokens[m]);
            assert(principal_key(r1[j]) == k);
        }
    }
    assert(key_set(r1) =~= key_set(r2));
    lemma_sorted_lists_equal(r1, r2, name_of);
}

} // verus!

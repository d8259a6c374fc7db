//! Relation codec: a finite set of identifiers is stored as one
//! delimiter-joined string column. Encoding always produces the canonical
//! trailing-delimiter form (`"1,2,"`); decoding also tolerates the bare form
//! (`"1,2"`), trims whitespace around tokens, drops empty tokens and drops
//! tokens that fail to parse.

use vstd::prelude::*;
use crate::digits::{dec_int, parses_i64, i64_val};

verus! {

/// Whitespace characters stripped from the edges of a token.
pub open spec fn is_space(c: char) -> bool {
    c == ' ' || c == '\t' || c == '\n' || c == '\r'
}

/// The token holds no delimiter.
pub open spec fn comma_free(t: Seq<char>) -> bool {
    forall|i: int| 0 <= i < t.len() ==> t[i] != ','
}

/// A token that the codec reproduces exactly: non-empty, delimiter-free,
/// and with no whitespace at either edge.
pub open spec fn is_clean_token(t: Seq<char>) -> bool {
    t.len() > 0 && comma_free(t) && !is_space(t[0]) && !is_space(t.last())
}

/// Splits a character sequence at every delimiter; `n` delimiters give
/// `n + 1` pieces, so an empty text gives one empty piece.
pub open spec fn split_commas(s: Seq<char>) -> Seq<Seq<char>>
    decreases s.len(),
{
    if s.len() == 0 {
        seq![s]
    } else if s[0] == ',' {
        seq![Seq::<char>::empty()] + split_commas(s.drop_first())
    } else {
        let rest = split_commas(s.drop_first());
        seq![seq![s[0]] + rest[0]] + rest.drop_first()
    }
}

pub open spec fn trim_start(s: Seq<char>) -> Seq<char>
    decreases s.len(),
{
    if s.len() > 0 && is_space(s[0]) {
        trim_start(s.drop_first())
    } else {
        s
    }
}

pub open spec fn trim_end(s: Seq<char>) -> Seq<char>
    decreases s.len(),
{
    if s.len() > 0 && is_space(s.last()) {
        trim_end(s.drop_last())
    } else {
        s
    }
}

/// Whitespace stripped from both edges.
pub open spec fn trim_spec(s: Seq<char>) -> Seq<char> {
    trim_end(trim_start(s))
}

/// The decoded token list of a stored relation text: split at the delimiter,
/// trim each piece, drop the empty pieces.
pub open spec fn tokens_of(s: Seq<char>) -> Seq<Seq<char>> {
    split_commas(s).map_values(|t: Seq<char>| trim_spec(t)).filter(|t: Seq<char>| t.len() > 0)
}

/// The characters of an optional column value; an absent value decodes
/// like the empty string.
pub open spec fn text_of(o: Option<String>) -> Seq<char> {
    match o {
        Some(s) => s@,
        None => Seq::empty(),
    }
}

pub open spec fn tokens_of_opt(o: Option<String>) -> Seq<Seq<char>> {
    tokens_of(text_of(o))
}

/// The decoded identifier list: tokens parsed as signed integers, with
/// unparseable tokens dropped.
pub open spec fn ids_of(s: Seq<char>) -> Seq<int> {
    tokens_of(s).filter_map(
        |t: Seq<char>| if parses_i64(t) {
            Some(i64_val(t))
        } else {
            None::<int>
        },
    )
}

pub open spec fn ids_of_opt(o: Option<String>) -> Seq<int> {
    ids_of(text_of(o))
}

/// The canonical encoding of a token list: each token followed by the
/// delimiter.
pub open spec fn joined(ts: Seq<Seq<char>>) -> Seq<char>
    decreases ts.len(),
{
    if ts.len() == 0 {
        Seq::empty()
    } else {
        ts.first() + seq![','] + joined(ts.drop_first())
    }
}

/// The canonical encoding of an identifier list.
pub open spec fn joined_ids(ids: Seq<int>) -> Seq<char> {
    joined(ids.map_values(|n: int| dec_int(n)))
}

// ------------------------------------------------------------------
// Splitting lemmas
// ------------------------------------------------------------------

pub proof fn lemma_split_len(s: Seq<char>)
    ensures
        split_commas(s).len() >= 1,
    decreases s.len(),
{
    if s.len() == 0 {
    } else if s[0] == ',' {
        lemma_split_len(s.drop_first());
    } else {
        lemma_split_len(s.drop_first());
    }
}

/// Every piece of the split is free of delimiters.
pub proof fn lemma_split_pieces_comma_free(s: Seq<char>)
    ensures
        forall|i: int|
            0 <= i < split_commas(s).len() ==> comma_free(#[trigger] split_commas(s)[i]),
    decreases s.len(),
{
    if s.len() == 0 {
    } else if s[0] == ',' {
        lemma_split_pieces_comma_free(s.drop_first());
        let rest = split_commas(s.drop_first());
        assert forall|i: int|
            0 <= i < split_commas(s).len() implies comma_free(
            #[trigger] split_commas(s)[i],
        ) by {
            if i > 0 {
                assert(split_commas(s)[i] == rest[i - 1]);
            }
        }
    } else {
        lemma_split_pieces_comma_free(s.drop_first());
        lemma_split_len(s.drop_first());
        let rest = split_commas(s.drop_first());
        assert forall|i: int|
            0 <= i < split_commas(s).len() implies comma_free(
            #[trigger] split_commas(s)[i],
        ) by {
            if i == 0 {
                assert(comma_free(rest[0]));
                assert(comma_free(seq![s[0]] + rest[0]));
            } else {
                assert(split_commas(s)[i] == rest[i]);
            }
        }
    }
}

/// Splitting distributes over a delimiter: the pieces of `a ++ "," ++ b`
/// are the pieces of `a` followed by the pieces of `b`.
pub proof fn lemma_split_concat(a: Seq<char>, b: Seq<char>)
    ensures
        split_commas(a + seq![','] + b) == split_commas(a) + split_commas(b),
    decreases a.len(),
{
    let s = a + seq![','] + b;
    if a.len() == 0 {
        assert(s =~= seq![','] + b);
        assert(s[0] == ',');
        assert(s.drop_first() =~= b);
        assert(split_commas(a) =~~= seq![a]);
        assert(split_commas(s) =~~= split_commas(a) + split_commas(b));
    } else {
        assert(s[0] == a[0]);
        assert(s.drop_first() =~= a.drop_first() + seq![','] + b);
        lemma_split_concat(a.drop_first(), b);
        lemma_split_len(a.drop_first());
        lemma_split_len(b);
        let ra = split_commas(a.drop_first());
        if a[0] == ',' {
            assert(split_commas(s) =~~= seq![Seq::<char>::empty()] + (ra + split_commas(b)));
            assert(split_commas(a) =~~= seq![Seq::<char>::empty()] + ra);
            assert(split_commas(s) =~~= split_commas(a) + split_commas(b));
        } else {
            let rs = split_commas(s.drop_first());
            assert(rs == ra + split_commas(b));
            assert(rs[0] == ra[0]);
            assert(rs.drop_first() =~~= ra.drop_first() + split_commas(b));
            assert(split_commas(s) =~~= seq![seq![a[0]] + ra[0]] + (ra.drop_first()
                + split_commas(b)));
            assert(split_commas(a) =~~= seq![seq![a[0]] + ra[0]] + ra.drop_first());
            assert(split_commas(s) =~~= split_commas(a) + split_commas(b));
        }
    }
}

/// A delimiter-free text is one single piece.
pub proof fn lemma_split_comma_free(s: Seq<char>)
    requires
        comma_free(s),
    ensures
        split_commas(s) == seq![s],
    decreases s.len(),
{
    if s.len() == 0 {
    } else {
        assert(s[0] != ',');
        lemma_split_comma_free(s.drop_first());
        lemma_split_len(s.drop_first());
        assert(split_commas(s) =~~= seq![seq![s[0]] + s.drop_first()]);
        assert(seq![s[0]] + s.drop_first() =~= s);
        assert(split_commas(s) =~~= seq![s]);
    }
}

// ------------------------------------------------------------------
// Trimming lemmas
// ------------------------------------------------------------------

pub proof fn lemma_trim_start_props(s: Seq<char>)
    ensures
        trim_start(s).len() > 0 ==> !is_space(trim_start(s)[0]),
        comma_free(s) ==> comma_free(trim_start(s)),
    decreases s.len(),
{
    if s.len() > 0 && is_space(s[0]) {
        lemma_trim_start_props(s.drop_first());
    }
}

pub proof fn lemma_trim_end_props(s: Seq<char>)
    ensures
        trim_end(s).len() > 0 ==> !is_space(trim_end(s).last()),
        trim_end(s).len() > 0 ==> trim_end(s)[0] == s[0],
        comma_free(s) ==> comma_free(trim_end(s)),
    decreases s.len(),
{
    if s.len() > 0 && is_space(s.last()) {
        lemma_trim_end_props(s.drop_last());
    }
}

/// A non-empty trimmed piece of a delimiter-free text is a clean token.
pub proof fn lemma_trim_clean(s: Seq<char>)
    requires
        comma_free(s),
    ensures
        trim_spec(s).len() > 0 ==> is_clean_token(trim_spec(s)),
{
    lemma_trim_start_props(s);
    lemma_trim_end_props(trim_start(s));
}

/// Trimming does not change a token that is already clean.
pub proof fn lemma_trim_of_clean(t: Seq<char>)
    requires
        t.len() > 0,
        !is_space(t[0]),
        !is_space(t.last()),
    ensures
        trim_spec(t) == t,
{
}

// ------------------------------------------------------------------
// Token-level lemmas
// ------------------------------------------------------------------

pub proof fn lemma_filter_subset<A>(s: Seq<A>, pred: spec_fn(A) -> bool)
    ensures
        forall|i: int|
            0 <= i < s.filter(pred).len() ==> s.contains(#[trigger] s.filter(pred)[i]),
    decreases s.len(),
{
    reveal(Seq::filter);
    if s.len() > 0 {
        lemma_filter_subset(s.drop_last(), pred);
        let out = s.filter(pred);
        assert forall|i: int| 0 <= i < out.len() implies s.contains(#[trigger] out[i]) by {
            if i < s.drop_last().filter(pred).len() {
                let x = out[i];
                assert(s.drop_last().contains(x));
                let j = choose|j: int|
                    0 <= j < s.drop_last().len() && s.drop_last()[j] == x;
                assert(s[j] == x);
            } else {
                assert(out[i] == s.last());
                assert(s[s.len() - 1] == s.last());
            }
        }
    }
}

proof fn lemma_map_values_add<A, B>(a: Seq<A>, b: Seq<A>, f: spec_fn(A) -> B)
    ensures
        (a + b).map_values(f) == a.map_values(f) + b.map_values(f),
{
    assert((a + b).map_values(f) =~= a.map_values(f) + b.map_values(f));
}

proof fn lemma_filter_map_add<A, B>(a: Seq<A>, b: Seq<A>, f: spec_fn(A) -> Option<B>)
    ensures
        (a + b).filter_map(f) == a.filter_map(f) + b.filter_map(f),
    decreases b.len(),
{
    reveal(Seq::filter_map);
    if b.len() == 0 {
        assert(a + b =~= a);
        assert(b.filter_map(f) =~= Seq::<B>::empty());
        assert(a.filter_map(f) + Seq::<B>::empty() =~= a.filter_map(f));
    } else {
        lemma_filter_map_add(a, b.drop_last(), f);
        assert((a + b).drop_last() =~= a + b.drop_last());
        assert((a + b).last() == b.last());
        if f(b.last()) is Some {
            assert((a + b).filter_map(f) =~= a.filter_map(f) + b.filter_map(f));
        } else {
            assert((a + b).filter_map(f) =~= a.filter_map(f) + b.filter_map(f));
        }
    }
}

/// Decoding distributes over a delimiter.
pub proof fn lemma_tokens_concat(a: Seq<char>, b: Seq<char>)
    ensures
        tokens_of(a + seq![','] + b) == tokens_of(a) + tokens_of(b),
{
    lemma_split_concat(a, b);
    lemma_map_values_add(split_commas(a), split_commas(b), |t: Seq<char>| trim_spec(t));
    broadcast use Seq::filter_distributes_over_add;

    assert(tokens_of(a + seq![','] + b) == tokens_of(a) + tokens_of(b));
}

/// Decoding distributes over a delimiter, at the identifier level.
pub proof fn lemma_ids_concat(a: Seq<char>, b: Seq<char>)
    ensures
        ids_of(a + seq![','] + b) == ids_of(a) + ids_of(b),
{
    lemma_tokens_concat(a, b);
    lemma_filter_map_add(
        tokens_of(a),
        tokens_of(b),
        |t: Seq<char>| if parses_i64(t) {
            Some(i64_val(t))
        } else {
            None::<int>
        },
    );
}

/// A delimiter-free text decodes to its trimmed self, or to nothing when
/// only whitespace is left.
pub proof fn lemma_tokens_comma_free(s: Seq<char>)
    requires
        comma_free(s),
    ensures
        trim_spec(s).len() > 0 ==> tokens_of(s) == seq![trim_spec(s)],
        trim_spec(s).len() == 0 ==> tokens_of(s) == Seq::<Seq<char>>::empty(),
{
    lemma_split_comma_free(s);
    let mapped = split_commas(s).map_values(|t: Seq<char>| trim_spec(t));
    let pred = |t: Seq<char>| t.len() > 0;
    assert(mapped =~~= seq![trim_spec(s)]);
    reveal(Seq::filter);
    assert(mapped.drop_last() =~~= Seq::<Seq<char>>::empty());
    assert(Seq::<Seq<char>>::empty().filter(pred) =~~= Seq::<Seq<char>>::empty());
    assert(mapped.drop_last().filter(pred) =~~= Seq::<Seq<char>>::empty());
    assert(mapped.last() == trim_spec(s));
    if trim_spec(s).len() > 0 {
        assert(mapped.filter(pred) =~~= Seq::<Seq<char>>::empty().push(trim_spec(s)));
        assert(tokens_of(s) =~~= seq![trim_spec(s)]);
    } else {
        assert(mapped.filter(pred) =~~= Seq::<Seq<char>>::empty());
        assert(tokens_of(s) =~~= Seq::<Seq<char>>::empty());
    }
}

/// The empty text decodes to no tokens and no identifiers.
pub proof fn lemma_tokens_empty()
    ensures
        tokens_of(Seq::<char>::empty()) == Seq::<Seq<char>>::empty(),
        ids_of(Seq::<char>::empty()) == Seq::<int>::empty(),
{
    lemma_tokens_comma_free(Seq::<char>::empty());
    reveal(Seq::filter_map);
}

/// Every decoded token is clean, so decoding what was re-encoded from
/// decoded tokens gives the same tokens back.
pub proof fn lemma_tokens_all_clean(s: Seq<char>)
    ensures
        forall|i: int|
            0 <= i < tokens_of(s).len() ==> is_clean_token(#[trigger] tokens_of(s)[i]),
{
    let mapped = split_commas(s).map_values(|t: Seq<char>| trim_spec(t));
    let pred = |t: Seq<char>| t.len() > 0;
    lemma_filter_subset(mapped, pred);
    lemma_split_pieces_comma_free(s);
    broadcast use Seq::lemma_filter_pred;

    assert forall|i: int|
        0 <= i < tokens_of(s).len() implies is_clean_token(#[trigger] tokens_of(s)[i]) by {
        let tok = tokens_of(s)[i];
        assert(mapped.contains(tok));
        let j = choose|j: int| 0 <= j < mapped.len() && mapped[j] == tok;
        assert(tok == trim_spec(split_commas(s)[j]));
        lemma_trim_clean(split_commas(s)[j]);
        assert(pred(tokens_of(s)[i]));
    }
}

/// Decoding tolerates the trailing-delimiter form: a trailing delimiter
/// never changes the decoded tokens or identifiers.
pub proof fn lemma_trailing_comma(s: Seq<char>)
    ensures
        tokens_of(s + seq![',']) == tokens_of(s),
        ids_of(s + seq![',']) == ids_of(s),
{
    assert(s + seq![','] =~= s + seq![','] + Seq::<char>::empty());
    lemma_tokens_concat(s, Seq::<char>::empty());
    lemma_ids_concat(s, Seq::<char>::empty());
    lemma_tokens_empty();
    assert(tokens_of(s + seq![',']) =~~= tokens_of(s));
    assert(ids_of(s + seq![',']) =~= ids_of(s));
}

/// Round trip at the token level: encoding any list of clean tokens and
/// decoding it again returns exactly that list.
pub proof fn lemma_tokens_round_trip(ts: Seq<Seq<char>>)
    requires
        forall|i: int| 0 <= i < ts.len() ==> is_clean_token(#[trigger] ts[i]),
    ensures
        tokens_of(joined(ts)) == ts,
    decreases ts.len(),
{
    if ts.len() == 0 {
        lemma_tokens_empty();
    } else {
        let t0 = ts.first();
        lemma_tokens_concat(t0, joined(ts.drop_first()));
        lemma_tokens_round_trip(ts.drop_first());
        lemma_trim_of_clean(t0);
        lemma_tokens_comma_free(t0);
        assert(tokens_of(joined(ts)) =~~= ts);
    }
}

/// Round trip at the identifier level: encoding any list of in-range
/// identifiers and decoding it again returns exactly that list.
pub proof fn lemma_ids_round_trip(ids: Seq<int>)
    requires
        forall|i: int|
            0 <= i < ids.len() ==> -0x8000_0000_0000_0000 <= #[trigger] ids[i]
                <= 0x7fff_ffff_ffff_ffff,
    ensures
        ids_of(joined_ids(ids)) == ids,
    decreases ids.len(),
{
    let rendered = ids.map_values(|n: int| dec_int(n));
    assert forall|i: int| 0 <= i < rendered.len() implies is_clean_token(
        #[trigger] rendered[i],
    ) by {
        crate::digits::lemma_dec_int_token_chars(ids[i]);
        let t = dec_int(ids[i]);
        assert(forall|j: int| 0 <= j < t.len() ==> !is_space(#[trigger] t[j]) && t[j] != ',');
    }
    lemma_tokens_round_trip(rendered);
    lemma_rendered_filter_map(ids);
}

proof fn lemma_rendered_filter_map(ids: Seq<int>)
    requires
        forall|i: int|
            0 <= i < ids.len() ==> -0x8000_0000_0000_0000 <= #[trigger] ids[i]
                <= 0x7fff_ffff_ffff_ffff,
    ensures
        ids.map_values(|n: int| dec_int(n)).filter_map(
            |t: Seq<char>| if parses_i64(t) {
                Some(i64_val(t))
            } else {
                None::<int>
            },
        ) == ids,
    decreases ids.len(),
{
    let rendered = ids.map_values(|n: int| dec_int(n));
    let f = |t: Seq<char>| if parses_i64(t) {
        Some(i64_val(t))
    } else {
        None::<int>
    };
    reveal(Seq::filter_map);
    if ids.len() == 0 {
        assert(rendered =~~= Seq::<Seq<char>>::empty());
        assert(rendered.filter_map(f) =~= Seq::<int>::empty());
    } else {
        lemma_rendered_filter_map(ids.drop_last());
        assert(rendered.drop_last() =~~= ids.drop_last().map_values(|n: int| dec_int(n)));
        crate::digits::lemma_parse_dec_int(ids.last());
        assert(rendered.last() == dec_int(ids.last()));
        assert(f(rendered.last()) == Some(ids.last()));
        assert(rendered.filter_map(f) =~= ids);
    }
}

/// Membership in a sequence extended by one element.
pub proof fn lemma_push_contains<A>(s: Seq<A>, x: A, y: A)
    ensures
        s.push(x).contains(y) <==> (s.contains(y) || y == x),
{
    if s.contains(y) {
        let i = choose|i: int| 0 <= i < s.len() && s[i] == y;
        assert(s.push(x)[i] == y);
    }
    if y == x {
        assert(s.push(x)[s.len() as int] == y);
    }
    if s.push(x).contains(y) {
        let i = choose|i: int| 0 <= i < s.push(x).len() && s.push(x)[i] == y;
        if i < s.len() {
            assert(s[i] == y);
        }
    }
}

/// Membership in a filtered sequence.
pub proof fn lemma_filter_contains_iff<A>(s: Seq<A>, pred: spec_fn(A) -> bool, y: A)
    ensures
        s.filter(pred).contains(y) <==> (s.contains(y) && pred(y)),
{
    broadcast use Seq::lemma_filter_pred;
    broadcast use Seq::lemma_filter_contains;

    lemma_filter_subset(s, pred);
    if s.filter(pred).contains(y) {
        let i = choose|i: int| 0 <= i < s.filter(pred).len() && s.filter(pred)[i] == y;
        assert(s.contains(s.filter(pred)[i]));
        assert(pred(s.filter(pred)[i]));
    }
    if s.contains(y) && pred(y) {
        let i = choose|i: int| 0 <= i < s.len() && s[i] == y;
        assert(s.filter(pred).contains(s[i]));
    }
}

/// Two pointwise-equal predicates filter a sequence identically.
pub proof fn lemma_filter_ext<A>(s: Seq<A>, p: spec_fn(A) -> bool, q: spec_fn(A) -> bool)
    requires
        forall|x: A| #[trigger] p(x) == #[trigger] q(x),
    ensures
        s.filter(p) == s.filter(q),
    decreases s.len(),
{
    reveal(Seq::filter);
    if s.len() > 0 {
        lemma_filter_ext(s.drop_last(), p, q);
        assert(p(s.last()) == q(s.last()));
    }
}

/// Filtering keeps elements distinct.
pub proof fn lemma_filter_distinct<A>(s: Seq<A>, pred: spec_fn(A) -> bool)
    requires
        forall|i: int, j: int| 0 <= i < j < s.len() ==> #[trigger] s[i] != #[trigger] s[j],
    ensures
        forall|i: int, j: int|
            0 <= i < j < s.filter(pred).len() ==> #[trigger] s.filter(pred)[i]
                != #[trigger] s.filter(pred)[j],
    decreases s.len(),
{
    reveal(Seq::filter);
    if s.len() > 0 {
        lemma_filter_distinct(s.drop_last(), pred);
        lemma_filter_subset(s.drop_last(), pred);
        let out = s.filter(pred);
        let prev = s.drop_last().filter(pred);
        assert forall|i: int, j: int|
            0 <= i < j < out.len() implies #[trigger] out[i] != #[trigger] out[j] by {
            if j < prev.len() {
                assert(out[i] == prev[i] && out[j] == prev[j]);
            } else {
                assert(out[j] == s.last());
                assert(out[i] == prev[i]);
                assert(s.drop_last().contains(prev[i]));
                let w = choose|w: int|
                    0 <= w < s.drop_last().len() && s.drop_last()[w] == prev[i];
                assert(s[w] == prev[i]);
                assert(s[w] != s[s.len() - 1]);
            }
        }
    }
}

/// The decimal rendering of an identifier is a clean token.
pub proof fn lemma_dec_int_clean(n: int)
    ensures
        is_clean_token(dec_int(n)),
        parses_i64(dec_int(n)) || !(-0x8000_0000_0000_0000 <= n <= 0x7fff_ffff_ffff_ffff),
        (-0x8000_0000_0000_0000 <= n <= 0x7fff_ffff_ffff_ffff) ==> parses_i64(dec_int(n))
            && i64_val(dec_int(n)) == n,
{
    crate::digits::lemma_dec_int_token_chars(n);
    let t = dec_int(n);
    assert(forall|j: int| 0 <= j < t.len() ==> !is_space(#[trigger] t[j]) && t[j] != ',');
    if -0x8000_0000_0000_0000 <= n <= 0x7fff_ffff_ffff_ffff {
        crate::digits::lemma_parse_dec_int(n);
    }
}

/// No double subscribe: registering an identifier that the decoded
/// subscriber set does not hold yet leaves exactly one entry for it, not
/// two — and a second registration is refused by the ledger because the
/// set then holds it.
pub proof fn lemma_single_membership_after_subscribe(s: Seq<int>, x: int)
    requires
        !s.contains(x),
    ensures
        s.push(x).contains(x),
        s.push(x).filter(|v: int| v == x).len() == 1,
{
    broadcast use Seq::lemma_filter_push;

    lemma_push_contains(s, x, x);
    let pred = |v: int| v == x;
    assert(s.push(x).filter(pred) == s.filter(pred).push(x));
    if s.filter(pred).len() > 0 {
        lemma_filter_subset(s, pred);
        broadcast use Seq::lemma_filter_pred;

        assert(s.contains(s.filter(pred)[0]));
        assert(pred(s.filter(pred)[0]));
        assert(false);
    }
    assert(s.filter(pred) =~= Seq::<int>::empty());
}

/// Decoding a prefix that ends right after a delimiter splits into the
/// decoded prefix before the delimiter and the decoded middle piece.
proof fn lemma_tokens_take_split(s: Seq<char>, start: int, i: int)
    requires
        0 <= start <= i <= s.len(),
        start == 0 || s[start - 1] == ',',
    ensures
        tokens_of(s.subrange(0, i)) == tokens_of(s.subrange(0, start)) + tokens_of(
            s.subrange(start, i),
        ),
{
    if start == 0 {
        lemma_tokens_empty();
        assert(s.subrange(0, 0) =~= Seq::<char>::empty());
        assert(s.subrange(0, i) =~= s.subrange(start, i));
        assert(tokens_of(s.subrange(0, start)) + tokens_of(s.subrange(start, i)) =~~= tokens_of(
            s.subrange(start, i),
        ));
    } else {
        let a = s.subrange(0, start - 1);
        let b = s.subrange(start, i);
        assert(s.subrange(0, i) =~= a + seq![','] + b);
        lemma_tokens_concat(a, b);
        assert(s.subrange(0, start) =~= a + seq![','] + Seq::<char>::empty());
        lemma_tokens_concat(a, Seq::<char>::empty());
        lemma_tokens_empty();
        assert(tokens_of(s.subrange(0, start)) =~~= tokens_of(a));
        assert(tokens_of(s.subrange(0, i)) =~~= tokens_of(s.subrange(0, start)) + tokens_of(b));
    }
}

// ------------------------------------------------------------------
// Executable codec
// ------------------------------------------------------------------

fn is_space_char(c: char) -> (r: bool)
    ensures
        r == is_space(c),
{
    c == ' ' || c == '\t' || c == '\n' || c == '\r'
}

/// Copies the characters of `s` between `from` and `to` with the
/// whitespace at both edges stripped.
fn trim_substr(s: &str, from: usize, to: usize) -> (r: String)
    requires
        from <= to <= s@.len(),
    ensures
        r@ == trim_spec(s@.subrange(from as int, to as int)),
{
    let ghost whole: Seq<char> = s@.subrange(from as int, to as int);
    let mut a = from;
    while a < to && is_space_char(s.get_char(a))
        invariant
            from <= a <= to <= s@.len(),
            whole == s@.subrange(from as int, to as int),
            trim_start(whole) == trim_start(s@.subrange(a as int, to as int)),
        decreases to - a,
    {
        proof {
            let cur = s@.subrange(a as int, to as int);
            assert(cur[0] == s@[a as int]);
            assert(cur.drop_first() =~= s@.subrange(a + 1, to as int));
        }
        a += 1;
    }
    proof {
        let cur = s@.subrange(a as int, to as int);
        if a < to {
            assert(cur[0] == s@[a as int]);
        }
        assert(trim_start(whole) == cur);
    }
    let mut b = to;
    while b > a && is_space_char(s.get_char(b - 1))
        invariant
            a <= b <= to <= s@.len(),
            trim_start(whole) == s@.subrange(a as int, to as int),
            trim_end(s@.subrange(a as int, to as int)) == trim_end(
                s@.subrange(a as int, b as int),
            ),
        decreases b,
    {
        proof {
            let cur = s@.subrange(a as int, b as int);
            assert(cur.last() == s@[b - 1]);
            assert(cur.drop_last() =~= s@.subrange(a as int, b - 1));
        }
        b -= 1;
    }
    proof {
        let cur = s@.subrange(a as int, b as int);
        if b > a {
            assert(cur.last() == s@[b - 1]);
        }
        assert(trim_end(s@.subrange(a as int, to as int)) == cur);
    }
    let piece = s.substring_char(a, b);
    piece.to_owned()
}

/// Decodes a relation text into its clean tokens, in order: pieces are
/// split at the delimiter, trimmed, and dropped when empty.
pub fn decode_tokens(text: &Option<String>) -> (r: Vec<String>)
    ensures
        r@.map_values(|t: String| t@) == tokens_of_opt(*text),
{
    match text {
        None => {
            let r: Vec<String> = Vec::new();
            proof {
                lemma_tokens_empty();
                assert(r@.map_values(|t: String| t@) =~~= tokens_of_opt(*text));
            }
            r
        },
        Some(raw) => {
            let r = decode_tokens_str(raw.as_str());
            r
        },
    }
}

fn decode_tokens_str(s: &str) -> (r: Vec<String>)
    ensures
        r@.map_values(|t: String| t@) == tokens_of(s@),
{
    let ghost view = |t: String| t@;
    let n = s.unicode_len();
    let mut toks: Vec<String> = Vec::new();
    let mut start: usize = 0;
    let mut i: usize = 0;
    proof {
        lemma_tokens_empty();
        assert(s@.subrange(0, 0) =~= Seq::<char>::empty());
        assert(toks@.map_values(view) =~~= tokens_of(s@.subrange(0, 0)));
    }
    while i < n
        invariant
            start <= i <= n,
            n == s@.len(),
            start == 0 || s@[start - 1] == ',',
            forall|j: int| start <= j < i ==> s@[j] != ',',
            toks@.map_values(view) == tokens_of(s@.subrange(0, start as int)),
            view == (|t: String| t@),
        decreases n - i,
    {
        let c = s.get_char(i);
        if c == ',' {
            let t = trim_substr(s, start, i);
            proof {
                lemma_tokens_take_split(s@, start as int, i + 1);
                let mid = s@.subrange(start as int, i + 1);
                let piece = s@.subrange(start as int, i as int);
                assert(mid =~= piece + seq![',']);
                lemma_trailing_comma(piece);
                assert(comma_free(piece));
                lemma_tokens_comma_free(piece);
            }
            if !t.as_str().is_empty() {
                toks.push(t);
                proof {
                    assert(toks@.map_values(view) =~~= tokens_of(s@.subrange(0, i + 1)));
                }
            } else {
                proof {
                    assert(toks@.map_values(view) =~~= tokens_of(s@.subrange(0, i + 1)));
                }
            }
            start = i + 1;
        }
        i += 1;
    }
    let t = trim_substr(s, start, n);
    proof {
        lemma_tokens_take_split(s@, start as int, n as int);
        let piece = s@.subrange(start as int, n as int);
        assert(comma_free(piece));
        lemma_tokens_comma_free(piece);
        assert(s@.subrange(0, n as int) =~= s@);
    }
    if !t.as_str().is_empty() {
        toks.push(t);
        proof {
            assert(toks@.map_values(view) =~~= tokens_of(s@));
        }
    } else {
        proof {
            assert(toks@.map_values(view) =~~= tokens_of(s@));
        }
    }
    toks
}

proof fn lemma_joined_push(ts: Seq<Seq<char>>, t: Seq<char>)
    ensures
        joined(ts.push(t)) == joined(ts) + t + seq![','],
    decreases ts.len(),
{
    if ts.len() == 0 {
        assert(ts.push(t).first() == t);
        assert(ts.push(t).drop_first() =~~= Seq::<Seq<char>>::empty());
        assert(joined(ts.push(t)) == t + seq![','] + joined(Seq::<Seq<char>>::empty()));
        assert(joined(Seq::<Seq<char>>::empty()) == Seq::<char>::empty());
        assert(joined(ts) == Seq::<char>::empty());
        assert(joined(ts.push(t)) =~= joined(ts) + t + seq![',']);
    } else {
        lemma_joined_push(ts.drop_first(), t);
        assert(ts.push(t).first() == ts.first());
        assert(ts.push(t).drop_first() =~~= ts.drop_first().push(t));
        assert(joined(ts.push(t)) == ts.first() + seq![','] + joined(ts.drop_first().push(t)));
        assert(joined(ts) == ts.first() + seq![','] + joined(ts.drop_first()));
        assert(joined(ts.push(t)) =~= joined(ts) + t + seq![',']);
    }
}

/// Appending one clean token and a trailing delimiter to a text that is
/// empty or ends with the delimiter adds exactly that token to the decode.
proof fn lemma_append_clean(mid: Seq<char>, tk: Seq<char>)
    requires
        is_clean_token(tk),
        mid.len() == 0 || mid.last() == ',',
    ensures
        tokens_of(mid + tk + seq![',']) == tokens_of(mid).push(tk),
        ids_of(mid + tk + seq![',']) == ids_of(mid) + (if parses_i64(tk) {
            seq![i64_val(tk)]
        } else {
            Seq::<int>::empty()
        }),
{
    lemma_tokens_empty();
    lemma_trim_of_clean(tk);
    lemma_tokens_comma_free(tk);
    reveal(Seq::filter_map);
    assert(tokens_of(tk) == seq![tk]);
    assert(seq![tk].drop_last() =~~= Seq::<Seq<char>>::empty());
    let ids_tail = if parses_i64(tk) {
        seq![i64_val(tk)]
    } else {
        Seq::<int>::empty()
    };
    assert(ids_of(tk) =~= ids_tail);
    if mid.len() == 0 {
        assert(mid =~= Seq::<char>::empty());
        assert(mid + tk + seq![','] =~= tk + seq![','] + Seq::<char>::empty());
        lemma_tokens_concat(tk, Seq::<char>::empty());
        lemma_ids_concat(tk, Seq::<char>::empty());
        assert(tokens_of(mid + tk + seq![',']) =~~= tokens_of(mid).push(tk));
        assert(ids_of(mid + tk + seq![',']) =~= ids_of(mid) + ids_tail);
    } else {
        let u = mid.drop_last();
        assert(mid + tk + seq![','] =~= u + seq![','] + (tk + seq![','] + Seq::<char>::empty()));
        lemma_tokens_concat(u, tk + seq![','] + Seq::<char>::empty());
        lemma_ids_concat(u, tk + seq![','] + Seq::<char>::empty());
        lemma_tokens_concat(tk, Seq::<char>::empty());
        lemma_ids_concat(tk, Seq::<char>::empty());
        assert(mid =~= u + seq![','] + Seq::<char>::empty());
        lemma_tokens_concat(u, Seq::<char>::empty());
        lemma_ids_concat(u, Seq::<char>::empty());
        assert(tokens_of(mid) =~~= tokens_of(u));
        assert(tokens_of(tk + seq![','] + Seq::<char>::empty()) =~~= seq![tk]);
        assert(tokens_of(mid + tk + seq![',']) =~~= tokens_of(mid).push(tk));
        assert(ids_of(mid + tk + seq![',']) =~= ids_of(mid) + ids_tail);
    }
}

/// Encodes a token list in the canonical form: every token followed by
/// the delimiter, so the empty list encodes as the empty string.
pub fn encode_tokens(tokens: &Vec<String>) -> (r: String)
    ensures
        r@ == joined(tokens@.map_values(|t: String| t@)),
{
    let ghost view = |t: String| t@;
    let ghost tv = tokens@.map_values(view);
    let mut r = String::new();
    let mut i: usize = 0;
    proof {
        reveal_strlit(",");
        assert(tv.take(0) =~~= Seq::<Seq<char>>::empty());
    }
    while i < tokens.len()
        invariant
            i <= tokens.len(),
            tv == tokens@.map_values(view),
            view == (|t: String| t@),
            ","@ == seq![','],
            r@ == joined(tv.take(i as int)),
        decreases tokens.len() - i,
    {
        r.append(tokens[i].as_str());
        r.append(",");
        proof {
            assert(tv.take(i + 1) =~~= tv.take(i as int).push(tv[i as int]));
            lemma_joined_push(tv.take(i as int), tv[i as int]);
        }
        i += 1;
    }
    proof {
        assert(tv.take(tokens@.len() as int) =~~= tv);
    }
    r
}

/// Encodes an identifier list in the canonical form.
pub fn encode_ids(ids: &Vec<i64>) -> (r: String)
    ensures
        r@ == joined_ids(ids@.map_values(|v: i64| v as int)),
{
    let ghost iv = ids@.map_values(|v: i64| v as int);
    let ghost rendered = iv.map_values(|n: int| dec_int(n));
    let mut r = String::new();
    let mut i: usize = 0;
    proof {
        reveal_strlit(",");
        assert(rendered.take(0) =~~= Seq::<Seq<char>>::empty());
    }
    while i < ids.len()
        invariant
            i <= ids.len(),
            iv == ids@.map_values(|v: i64| v as int),
            rendered == iv.map_values(|n: int| dec_int(n)),
            ","@ == seq![','],
            r@ == joined(rendered.take(i as int)),
        decreases ids.len() - i,
    {
        let digits = crate::digits::i64_to_string(ids[i]);
        r.append(digits.as_str());
        r.append(",");
        proof {
            assert(rendered.take(i + 1) =~~= rendered.take(i as int).push(
                rendered[i as int],
            ));
            lemma_joined_push(rendered.take(i as int), rendered[i as int]);
        }
        i += 1;
    }
    proof {
        assert(rendered.take(ids@.len() as int) =~~= rendered);
    }
    r
}

/// Appends one clean token to a stored relation text, preserving whatever
/// else the text holds; a bare-form text first gets its missing delimiter.
pub fn append_token(text: &Option<String>, token: &str) -> (r: String)
    requires
        is_clean_token(token@),
    ensures
        tokens_of(r@) == tokens_of_opt(*text).push(token@),
        ids_of(r@) == ids_of_opt(*text) + (if parses_i64(token@) {
            seq![i64_val(token@)]
        } else {
            Seq::<int>::empty()
        }),
{
    proof {
        reveal_strlit(",");
    }
    let mut base: String = match text {
        None => String::new(),
        Some(t) => t.clone(),
    };
    let n = base.as_str().unicode_len();
    if n > 0 && !(base.as_str().get_char(n - 1) == ',') {
        base.append(",");
        proof {
            let u = text_of(*text);
            assert(base@ =~= u + seq![',']);
            lemma_trailing_comma(u);
        }
    } else {
        proof {
            let u = text_of(*text);
            if n > 0 {
                assert(base@ =~= u.drop_last() + seq![',']);
                lemma_trailing_comma(u.drop_last());
                assert(u =~= u.drop_last() + seq![',']);
            }
        }
    }
    // here: tokens_of(base@) == tokens_of_opt(text), ids likewise, and
    // base is empty or ends with the delimiter
    let ghost mid = base@;
    base.append(token);
    base.append(",");
    proof {
        assert(base@ =~= mid + token@ + seq![',']);
        lemma_append_clean(mid, token@);
    }
    base
}

/// Relates token-level removal of one identifier to identifier-level
/// removal: kept parseable tokens carry exactly the kept identifiers.
proof fn lemma_ids_filter_split(toks: Seq<Seq<char>>, m: int)
    ensures
        toks.filter(|t: Seq<char>| parses_i64(t) && i64_val(t) != m).filter_map(
            |t: Seq<char>| if parses_i64(t) {
                Some(i64_val(t))
            } else {
                None::<int>
            },
        ) == toks.filter_map(
            |t: Seq<char>| if parses_i64(t) {
                Some(i64_val(t))
            } else {
                None::<int>
            },
        ).filter(|v: int| v != m),
        toks.filter(|t: Seq<char>| parses_i64(t) && i64_val(t) == m).len() == toks.filter_map(
            |t: Seq<char>| if parses_i64(t) {
                Some(i64_val(t))
            } else {
                None::<int>
            },
        ).filter(|v: int| v == m).len(),
    decreases toks.len(),
{
    reveal(Seq::filter);
    reveal(Seq::filter_map);
    let pk = |t: Seq<char>| parses_i64(t) && i64_val(t) != m;
    let pe = |t: Seq<char>| parses_i64(t) && i64_val(t) == m;
    let f = |t: Seq<char>| if parses_i64(t) {
        Some(i64_val(t))
    } else {
        None::<int>
    };
    let keep = |v: int| v != m;
    let hit = |v: int| v == m;
    if toks.len() > 0 {
        lemma_ids_filter_split(toks.drop_last(), m);
        let prev = toks.drop_last();
        let t = toks.last();
        if parses_i64(t) {
            let v = i64_val(t);
            assert(toks.filter_map(f) == prev.filter_map(f) + seq![v]);
            Seq::filter_distributes_over_add(prev.filter_map(f), seq![v], keep);
            Seq::filter_distributes_over_add(prev.filter_map(f), seq![v], hit);
            assert(seq![v].drop_last() =~= Seq::<int>::empty());
            assert(Seq::<int>::empty().filter(keep) =~= Seq::<int>::empty());
            assert(Seq::<int>::empty().filter(hit) =~= Seq::<int>::empty());
            if v == m {
                assert(seq![v].filter(keep) =~= Seq::<int>::empty());
                assert(seq![v].filter(hit) =~= seq![v]);
                assert(toks.filter(pk) == prev.filter(pk));
                assert(toks.filter(pe) == prev.filter(pe).push(t));
                assert(toks.filter_map(f).filter(keep) =~= prev.filter_map(f).filter(keep));
            } else {
                assert(seq![v].filter(keep) =~= seq![v]);
                assert(seq![v].filter(hit) =~= Seq::<int>::empty());
                assert(toks.filter(pk) == prev.filter(pk).push(t));
                assert(toks.filter(pe) == prev.filter(pe));
                assert(prev.filter(pk).push(t).drop_last() =~~= prev.filter(pk));
                assert(toks.filter(pk).filter_map(f) == prev.filter(pk).filter_map(f)
                    + seq![v]);
                assert(toks.filter_map(f).filter(keep) =~= prev.filter_map(f).filter(keep)
                    + seq![v]);
            }
        } else {
            assert(toks.filter_map(f) == prev.filter_map(f));
            assert(toks.filter(pk) == prev.filter(pk));
            assert(toks.filter(pe) == prev.filter(pe));
        }
    }
}

/// Removes every token that parses to `member` from a stored identifier
/// list, re-encoding what is kept in the canonical form; returns how many
/// tokens were removed and the new text.
pub fn remove_id(text: &Option<String>, member: i64) -> (r: (u64, String))
    ensures
        r.1@ == joined(
            tokens_of_opt(*text).filter(
                |t: Seq<char>| parses_i64(t) && i64_val(t) != member as int,
            ),
        ),
        tokens_of(r.1@) == tokens_of_opt(*text).filter(
            |t: Seq<char>| parses_i64(t) && i64_val(t) != member as int,
        ),
        ids_of(r.1@) == ids_of_opt(*text).filter(|v: int| v != member as int),
        r.0 as int == ids_of_opt(*text).filter(|v: int| v == member as int).len(),
{
    broadcast use Seq::lemma_filter_push;
    broadcast use Seq::lemma_filter_len;

    let ghost view = |t: String| t@;
    let ghost pk = |t: Seq<char>| parses_i64(t) && i64_val(t) != member as int;
    let ghost pe = |t: Seq<char>| parses_i64(t) && i64_val(t) == member as int;
    let toks = decode_tokens(text);
    let ghost tv = toks@.map_values(view);
    let mut kept: Vec<String> = Vec::new();
    let mut count: u64 = 0;
    let mut i: usize = 0;
    proof {
        assert(tv.take(0) =~~= Seq::<Seq<char>>::empty());
        assert(kept@.map_values(view) =~~= tv.take(0).filter(pk));
        assert(tv.take(0).filter(pe) =~~= Seq::<Seq<char>>::empty());
    }
    while i < toks.len()
        invariant
            i <= toks.len(),
            tv == toks@.map_values(view),
            view == (|t: String| t@),
            pk == (|t: Seq<char>| parses_i64(t) && i64_val(t) != member as int),
            pe == (|t: Seq<char>| parses_i64(t) && i64_val(t) == member as int),
            kept@.map_values(view) == tv.take(i as int).filter(pk),
            count as int == tv.take(i as int).filter(pe).len(),
            count <= i,
        decreases toks.len() - i,
    {
        proof {
            let prev = tv.take(i as int);
            assert(tv.take(i + 1) =~~= prev.push(tv[i as int]));
            prev.lemma_filter_push(tv[i as int], pk);
            prev.lemma_filter_push(tv[i as int], pe);
        }
        match crate::digits::parse_i64(toks[i].as_str()) {
            Some(v) => {
                if v == member {
                    count = count + 1;
                } else {
                    kept.push(toks[i].clone());
                    proof {
                        assert(kept@.map_values(view) =~~= tv.take(i as int).filter(pk).push(
                            tv[i as int],
                        ));
                    }
                }
            },
            None => {},
        }
        i += 1;
    }
    proof {
        assert(tv.take(toks@.len() as int) =~~= tv);
    }
    let out = encode_tokens(&kept);
    proof {
        lemma_tokens_all_clean(text_of(*text));
        lemma_filter_subset(tv, pk);
        let kv = kept@.map_values(view);
        assert forall|j: int| 0 <= j < kv.len() implies is_clean_token(#[trigger] kv[j]) by {
            assert(tv.contains(kv[j]));
            let w = choose|w: int| 0 <= w < tv.len() && tv[w] == kv[j];
            assert(tokens_of_opt(*text)[w] == kv[j]);
        }
        lemma_tokens_round_trip(kv);
        lemma_ids_filter_split(tv, member as int);
    }
    (count, out)
}

/// Removes every token equal to `member` from a stored relation text,
/// re-encoding what is kept in the canonical form; returns how many
/// tokens were removed and the new text.
pub fn remove_token(text: &Option<String>, member: &str) -> (r: (u64, String))
    ensures
        r.1@ == joined(tokens_of_opt(*text).filter(|t: Seq<char>| t != member@)),
        tokens_of(r.1@) == tokens_of_opt(*text).filter(|t: Seq<char>| t != member@),
        r.0 as int == tokens_of_opt(*text).filter(|t: Seq<char>| t == member@).len(),
{
    broadcast use Seq::lemma_filter_push;
    broadcast use Seq::lemma_filter_len;

    let ghost view = |t: String| t@;
    let ghost pk = |t: Seq<char>| t != member@;
    let ghost pe = |t: Seq<char>| t == member@;
    let toks = decode_tokens(text);
    let ghost tv = toks@.map_values(view);
    let target = member.to_owned();
    let mut kept: Vec<String> = Vec::new();
    let mut count: u64 = 0;
    let mut i: usize = 0;
    proof {
        assert(tv.take(0) =~~= Seq::<Seq<char>>::empty());
        assert(kept@.map_values(view) =~~= tv.take(0).filter(pk));
        assert(tv.take(0).filter(pe) =~~= Seq::<Seq<char>>::empty());
    }
    while i < toks.len()
        invariant
            i <= toks.len(),
            tv == toks@.map_values(view),
            view == (|t: String| t@),
            pk == (|t: Seq<char>| t != member@),
            pe == (|t: Seq<char>| t == member@),
            target@ == member@,
            kept@.map_values(view) == tv.take(i as int).filter(pk),
            count as int == tv.take(i as int).filter(pe).len(),
            count <= i,
        decreases toks.len() - i,
    {
        proof {
            let prev = tv.take(i as int);
            assert(tv.take(i + 1) =~~= prev.push(tv[i as int]));
            prev.lemma_filter_push(tv[i as int], pk);
            prev.lemma_filter_push(tv[i as int], pe);
        }
        if toks[i] == target {
            count = count + 1;
        } else {
            kept.push(toks[i].clone());
            proof {
                assert(kept@.map_values(view) =~~= tv.take(i as int).filter(pk).push(
                    tv[i as int],
                ));
            }
        }
        i += 1;
    }
    proof {
        assert(tv.take(toks@.len() as int) =~~= tv);
    }
    let out = encode_tokens(&kept);
    proof {
        lemma_tokens_all_clean(text_of(*text));
        lemma_filter_subset(tv, pk);
        let kv = kept@.map_values(view);
        assert forall|j: int| 0 <= j < kv.len() implies is_clean_token(#[trigger] kv[j]) by {
            assert(tv.contains(kv[j]));
            let w = choose|w: int| 0 <= w < tv.len() && tv[w] == kv[j];
            assert(tokens_of_opt(*text)[w] == kv[j]);
        }
        lemma_tokens_round_trip(kv);
    }
    (count, out)
}

/// Whether a token would be reproduced exactly by the codec: non-empty,
/// free of the delimiter, and without whitespace at its edges.
pub fn clean_token_check(s: &str) -> (r: bool)
    ensures
        r == is_clean_token(s@),
{
    let n = s.unicode_len();
    if n == 0 {
        return false;
    }
    if is_space_char(s.get_char(0)) || is_space_char(s.get_char(n - 1)) {
        return false;
    }
    let mut i: usize = 0;
    while i < n
        invariant
            i <= n,
            n == s@.len(),
            forall|j: int| 0 <= j < i ==> s@[j] != ',',
        decreases n - i,
    {
        if s.get_char(i) == ',' {
            return false;
        }
        i += 1;
    }
    true
}

/// Whitespace stripped from both edges, as the decoder does per token.
pub fn trim_str(s: &str) -> (r: String)
    ensures
        r@ == trim_spec(s@),
{
    let n = s.unicode_len();
    let r = trim_substr(s, 0, n);
    proof {
        assert(s@.subrange(0, n as int) =~= s@);
    }
    r
}

/// Membership test on the decoded token set, never on the raw text.
pub fn tokens_contain(text: &Option<String>, member: &str) -> (r: bool)
    ensures
        r == tokens_of_opt(*text).contains(member@),
{
    let ghost view = |t: String| t@;
    let toks = decode_tokens(text);
    let ghost tv = toks@.map_values(view);
    let target = member.to_owned();
    let mut i: usize = 0;
    while i < toks.len()
        invariant
            i <= toks.len(),
            tv == toks@.map_values(view),
            tv == tokens_of_opt(*text),
            view == (|t: String| t@),
            target@ == member@,
            forall|j: int| 0 <= j < i ==> tv[j] != member@,
        decreases toks.len() - i,
    {
        if toks[i] == target {
            proof {
                assert(tv[i as int] == member@);
                assert(tokens_of_opt(*text)[i as int] == member@);
            }
            return true;
        }
        i += 1;
    }
    proof {
        assert(!tokens_of_opt(*text).contains(member@));
    }
    false
}

/// Membership test on the decoded identifier set, never on the raw text.
pub fn ids_contain(text: &Option<String>, member: i64) -> (r: bool)
    ensures
        r == ids_of_opt(*text).contains(member as int),
{
    let ids = decode_ids(text);
    let ghost iv = ids@.map_values(|v: i64| v as int);
    let mut i: usize = 0;
    while i < ids.len()
        invariant
            i <= ids.len(),
            iv == ids@.map_values(|v: i64| v as int),
            iv == ids_of_opt(*text),
            forall|j: int| 0 <= j < i ==> iv[j] != member as int,
        decreases ids.len() - i,
    {
        if ids[i] == member {
            proof {
                assert(iv[i as int] == member as int);
                assert(ids_of_opt(*text)[i as int] == member as int);
            }
            return true;
        }
        i += 1;
    }
    proof {
        assert(!ids_of_opt(*text).contains(member as int));
    }
    false
}

/// Decodes a relation text into its identifiers, in order: clean tokens
/// that parse as signed integers; unparseable tokens are dropped rather
/// than failing the whole decode.
pub fn decode_ids(text: &Option<String>) -> (r: Vec<i64>)
    ensures
        r@.map_values(|v: i64| v as int) == ids_of_opt(*text),
{
    broadcast use Seq::lemma_filter_map_take_succ;

    let ghost view = |t: String| t@;
    let ghost f = |t: Seq<char>| if parses_i64(t) {
        Some(i64_val(t))
    } else {
        None::<int>
    };
    let toks = decode_tokens(text);
    let ghost tv = toks@.map_values(view);
    let mut ids: Vec<i64> = Vec::new();
    let mut i: usize = 0;
    proof {
        reveal(Seq::filter_map);
        assert(tv.take(0) =~~= Seq::<Seq<char>>::empty());
        assert(ids@.map_values(|v: i64| v as int) =~= tv.take(0).filter_map(f));
    }
    while i < toks.len()
        invariant
            i <= toks.len(),
            tv == toks@.map_values(view),
            view == (|t: String| t@),
            f == (|t: Seq<char>| if parses_i64(t) {
                Some(i64_val(t))
            } else {
                None::<int>
            }),
            ids@.map_values(|v: i64| v as int) == tv.take(i as int).filter_map(f),
        decreases toks.len() - i,
    {
        proof {
            tv.lemma_filter_map_take_succ(f, i as int);
        }
        match crate::digits::parse_i64(toks[i].as_str()) {
            Some(v) => {
                ids.push(v);
                proof {
                    assert(f(tv[i as int]) == Some(i64_val(tv[i as int])));
                    assert(ids@.map_values(|v: i64| v as int) =~= tv.take(i as int).filter_map(
                        f,
                    ) + seq![i64_val(tv[i as int])]);
                }
            },
            None => {
                proof {
                    assert(f(tv[i as int]) is None);
                }
            },
        }
        i += 1;
    }
    proof {
        assert(tv.take(toks@.len() as int) =~~= tv);
    }
    ids
}

} // verus!

//! Laws of the encoding, stated and proved against the spec functions
//! that the executable encoders are verified to implement: canonical key
//! order makes construction order irrelevant, safe-unquoted strings
//! survive re-tokenization, tabular blocks have the promised shape,
//! every array header carries the array's length, and empty containers
//! render as single lines.

use vstd::prelude::*;

use crate::encoders::spec_array_lines;
use crate::encoders::spec_key_views;
use crate::encoders::spec_kv_lines;
use crate::encoders::spec_line;
use crate::encoders::spec_object_lines;
use crate::encoders::spec_prim_values;
use crate::encoders::spec_tab_rows;
use crate::normalize::spec_all_objects;
use crate::primitives::spec_decimal;
use crate::primitives::spec_encode_key;
use crate::primitives::spec_encode_primitive;
use crate::primitives::spec_encode_string_literal;
use crate::primitives::spec_header;
use crate::primitives::spec_is_safe_unquoted;
use crate::primitives::spec_join_primitives;
use crate::encoders::spec_encode_value;
use crate::encoders::spec_is_tabular;
use crate::spec_options;
use crate::types::Delimiter;
use crate::types::EncodeOptions;
use crate::types::JsonPrimitive;
use crate::types::JsonValue;
use crate::types::keys_sorted;
use crate::types::lemma_lex_lt_irreflexive;
use crate::types::lemma_lex_lt_transitive;
use crate::types::lemma_map_of_pairs_dom;
use crate::types::lemma_wf_object;
use crate::types::lex_lt;
use crate::types::map_of_pairs;
use crate::types::spec_delim_char;
use crate::types::spec_has_key;

verus! {

// ---------------------------------------------------------------------------
// Idempotent key ordering
// ---------------------------------------------------------------------------

proof fn lemma_sorted_drop_last(p: Seq<(String, JsonValue)>)
    requires
        keys_sorted(p),
        p.len() > 0,
    ensures
        keys_sorted(p.drop_last()),
{
    assert forall|a: int, b: int| 0 <= a < b < p.drop_last().len() implies lex_lt(
        #[trigger] p.drop_last()[a].0@,
        #[trigger] p.drop_last()[b].0@,
    ) by {
        assert(p.drop_last()[a] == p[a]);
        assert(p.drop_last()[b] == p[b]);
        assert(lex_lt(p[a].0@, p[b].0@));
    }
}

proof fn lemma_pairs_last_key_absent(p: Seq<(String, JsonValue)>)
    requires
        keys_sorted(p),
        p.len() > 0,
    ensures
        !spec_has_key(p.drop_last(), p.last().0@),
{
    if spec_has_key(p.drop_last(), p.last().0@) {
        let j = choose|j: int|
            0 <= j < p.drop_last().len() && #[trigger] p.drop_last()[j].0@ == p.last().0@;
        assert(p[j].0@ == p.last().0@);
        assert(lex_lt(p[j].0@, p[p.len() - 1].0@));
        lemma_lex_lt_irreflexive(p.last().0@);
    }
}

proof fn lemma_map_drop_last(p: Seq<(String, JsonValue)>)
    requires
        keys_sorted(p),
        p.len() > 0,
    ensures
        map_of_pairs(p.drop_last()) == map_of_pairs(p).remove(p.last().0@),
{
    lemma_pairs_last_key_absent(p);
    lemma_map_of_pairs_dom(p.drop_last(), p.last().0@);
    assert(map_of_pairs(p.drop_last()) =~= map_of_pairs(p).remove(p.last().0@));
}

proof fn lemma_sorted_same_map_pointwise(p1: Seq<(String, JsonValue)>, p2: Seq<(String, JsonValue)>)
    requires
        keys_sorted(p1),
        keys_sorted(p2),
        map_of_pairs(p1) == map_of_pairs(p2),
    ensures
        p1.len() == p2.len(),
        forall|i: int|
            0 <= i < p1.len() ==> (#[trigger] p1[i]).0@ == p2[i].0@ && p1[i].1 == p2[i].1,
    decreases p1.len(),
{
    if p1.len() == 0 && p2.len() > 0 {
        assert(spec_has_key(p2, p2.last().0@)) by {
            assert(p2[p2.len() - 1].0@ == p2.last().0@);
        }
        lemma_map_of_pairs_dom(p2, p2.last().0@);
        lemma_map_of_pairs_dom(p1, p2.last().0@);
        assert(false);
    } else if p2.len() == 0 && p1.len() > 0 {
        assert(spec_has_key(p1, p1.last().0@)) by {
            assert(p1[p1.len() - 1].0@ == p1.last().0@);
        }
        lemma_map_of_pairs_dom(p1, p1.last().0@);
        lemma_map_of_pairs_dom(p2, p1.last().0@);
        assert(false);
    } else if p1.len() > 0 && p2.len() > 0 {
        let k1 = p1.last().0@;
        let k2 = p2.last().0@;
        assert(k1 == k2) by {
            if k1 != k2 {
                assert(spec_has_key(p1, k1)) by {
                    assert(p1[p1.len() - 1].0@ == k1);
                }
                lemma_map_of_pairs_dom(p1, k1);
                lemma_map_of_pairs_dom(p2, k1);
                let j = choose|j: int| 0 <= j < p2.len() && #[trigger] p2[j].0@ == k1;
                assert(j < p2.len() - 1);
                assert(lex_lt(p2[j].0@, p2[p2.len() - 1].0@));
                assert(spec_has_key(p2, k2)) by {
                    assert(p2[p2.len() - 1].0@ == k2);
                }
                lemma_map_of_pairs_dom(p2, k2);
                lemma_map_of_pairs_dom(p1, k2);
                let j2 = choose|j: int| 0 <= j < p1.len() && #[trigger] p1[j].0@ == k2;
                assert(j2 < p1.len() - 1);
                assert(lex_lt(p1[j2].0@, p1[p1.len() - 1].0@));
                lemma_lex_lt_transitive(k1, k2, k1);
                lemma_lex_lt_irreflexive(k1);
            }
        }
        assert(map_of_pairs(p1)[k1] == p1.last().1);
        assert(map_of_pairs(p2)[k2] == p2.last().1);
        lemma_map_drop_last(p1);
        lemma_map_drop_last(p2);
        lemma_sorted_drop_last(p1);
        lemma_sorted_drop_last(p2);
        lemma_sorted_same_map_pointwise(p1.drop_last(), p2.drop_last());
        assert forall|i: int| 0 <= i < p1.len() implies (#[trigger] p1[i]).0@ == p2[i].0@
            && p1[i].1 == p2[i].1 by {
            if i < p1.len() - 1 {
                assert(p1.drop_last()[i] == p1[i]);
                assert(p2.drop_last()[i] == p2[i]);
                assert((p1.drop_last()[i]).0@ == p2.drop_last()[i].0@ && p1.drop_last()[i].1
                    == p2.drop_last()[i].1);
            }
        }
    }
}

proof fn lemma_object_lines_pointwise(
    p1: Seq<(String, JsonValue)>,
    p2: Seq<(String, JsonValue)>,
    depth: nat,
    opts: EncodeOptions,
)
    requires
        p1.len() == p2.len(),
        forall|i: int|
            0 <= i < p1.len() ==> (#[trigger] p1[i]).0@ == p2[i].0@ && p1[i].1 == p2[i].1,
    ensures
        spec_object_lines(p1, depth, opts) == spec_object_lines(p2, depth, opts),
    decreases p1.len(),
{
    if p1.len() > 0 {
        assert forall|i: int| 0 <= i < p1.drop_last().len() implies (#[trigger] p1.drop_last()[
            i
        ]).0@ == p2.drop_last()[i].0@ && p1.drop_last()[i].1 == p2.drop_last()[i].1 by {
            assert(p1.drop_last()[i] == p1[i]);
            assert(p2.drop_last()[i] == p2[i]);
        }
        lemma_object_lines_pointwise(p1.drop_last(), p2.drop_last(), depth, opts);
        assert(p1[p1.len() - 1].0@ == p2[p2.len() - 1].0@);
        assert(p1[p1.len() - 1].1 == p2[p2.len() - 1].1);
        assert(spec_kv_lines(p1.last().0@, p1.last().1, depth, opts) == spec_kv_lines(
            p2.last().0@,
            p2.last().1,
            depth,
            opts,
        ));
    }
}

/// Law: idempotent key ordering.  Two well-formed objects that stand for
/// the same key-to-value mapping encode to byte-identical output, no
/// matter in which order their pairs were inserted.
pub proof fn lemma_encoding_ignores_construction_order(
    a: JsonValue,
    b: JsonValue,
    options: Option<EncodeOptions>,
)
    requires
        a is Object,
        b is Object,
        a.wf(),
        b.wf(),
        map_of_pairs(a->Object_0@) == map_of_pairs(b->Object_0@),
    ensures
        spec_encode_value(a, spec_options(options)) == spec_encode_value(b, spec_options(options)),
{
    lemma_wf_object(a);
    lemma_wf_object(b);
    lemma_sorted_same_map_pointwise(a->Object_0@, b->Object_0@);
    lemma_object_lines_pointwise(a->Object_0@, b->Object_0@, 0, spec_options(options));
}

// ---------------------------------------------------------------------------
// Round-trip safety
// ---------------------------------------------------------------------------

/// Splitting a character sequence on a separator character: the
/// separator-free stretches, in order.  Never empty; adjacent separators
/// yield empty tokens.
pub open spec fn spec_split(s: Seq<char>, c: char) -> Seq<Seq<char>>
    decreases s.len(),
{
    if s.len() == 0 {
        seq![Seq::<char>::empty()]
    } else if s[0] == c {
        seq![Seq::<char>::empty()] + spec_split(s.drop_first(), c)
    } else {
        let r = spec_split(s.drop_first(), c);
        seq![seq![s[0]] + r[0]] + r.drop_first()
    }
}

/// Tokens joined by a single separator character.
pub open spec fn spec_join_tokens(ts: Seq<Seq<char>>, c: char) -> Seq<char>
    decreases ts.len(),
{
    if ts.len() == 0 {
        Seq::empty()
    } else if ts.len() == 1 {
        ts[0]
    } else {
        ts[0] + seq![c] + spec_join_tokens(ts.drop_first(), c)
    }
}

proof fn lemma_split_single(t: Seq<char>, c: char)
    requires
        forall|j: int| 0 <= j < t.len() ==> t[j] != c,
    ensures
        spec_split(t, c) == seq![t],
    decreases t.len(),
{
    if t.len() == 0 {
        assert(t =~= Seq::<char>::empty());
        assert(spec_split(t, c) =~= seq![t]);
    } else {
        assert forall|j: int| 0 <= j < t.drop_first().len() implies t.drop_first()[j] != c by {
            assert(t.drop_first()[j] == t[j + 1]);
        }
        lemma_split_single(t.drop_first(), c);
        let r = spec_split(t.drop_first(), c);
        assert(r == seq![t.drop_first()]);
        assert(r[0] == t.drop_first());
        assert(seq![t[0]] + t.drop_first() =~= t);
        assert(seq![t[0]] + r[0] == t);
        assert(r.drop_first() =~= Seq::<Seq<char>>::empty());
        assert(t[0] != c);
        assert(spec_split(t, c) == seq![seq![t[0]] + r[0]] + r.drop_first());
        assert(spec_split(t, c) =~= seq![t]);
    }
}

proof fn lemma_split_prepend(t: Seq<char>, rest: Seq<char>, c: char)
    requires
        forall|j: int| 0 <= j < t.len() ==> t[j] != c,
    ensures
        spec_split(t + seq![c] + rest, c) == seq![t] + spec_split(rest, c),
    decreases t.len(),
{
    let s = t + seq![c] + rest;
    if t.len() == 0 {
        assert(s[0] == c);
        assert(s.drop_first() =~= rest);
        assert(t =~= Seq::<char>::empty());
        assert(spec_split(s, c) =~= seq![t] + spec_split(rest, c));
    } else {
        assert(s[0] == t[0]);
        assert(s[0] != c);
        assert(s.drop_first() =~= t.drop_first() + seq![c] + rest);
        assert forall|j: int| 0 <= j < t.drop_first().len() implies t.drop_first()[j] != c by {
            assert(t.drop_first()[j] == t[j + 1]);
        }
        lemma_split_prepend(t.drop_first(), rest, c);
        let r = spec_split(s.drop_first(), c);
        assert(r == seq![t.drop_first()] + spec_split(rest, c));
        assert(r[0] == t.drop_first());
        assert(seq![s[0]] + r[0] =~= t);
        assert(r.drop_first() =~= spec_split(rest, c));
        assert(spec_split(s, c) =~= seq![t] + spec_split(rest, c));
    }
}

/// Law: round-trip safety of a joined row.  Tokens free of the separator
/// are recovered exactly by splitting on it.
pub proof fn lemma_split_join(ts: Seq<Seq<char>>, c: char)
    requires
        ts.len() > 0,
        forall|i: int, j: int|
            0 <= i < ts.len() && 0 <= j < ts[i].len() ==> #[trigger] ts[i][j] != c,
    ensures
        spec_split(spec_join_tokens(ts, c), c) == ts,
    decreases ts.len(),
{
    if ts.len() == 1 {
        assert(forall|j: int| 0 <= j < ts[0].len() ==> ts[0][j] != c);
        lemma_split_single(ts[0], c);
        assert(spec_split(spec_join_tokens(ts, c), c) =~= ts);
    } else {
        assert(forall|j: int| 0 <= j < ts[0].len() ==> ts[0][j] != c);
        lemma_split_prepend(ts[0], spec_join_tokens(ts.drop_first(), c), c);
        assert forall|i: int, j: int|
            0 <= i < ts.drop_first().len() && 0 <= j < ts.drop_first()[i].len() implies #[trigger] ts.drop_first()[i][j]
            != c by {
            assert(ts.drop_first()[i] == ts[i + 1]);
            assert(ts[i + 1][j] != c);
        }
        lemma_split_join(ts.drop_first(), c);
        assert(spec_split(spec_join_tokens(ts, c), c) =~= ts);
    }
}

proof fn lemma_join_tokens_snoc(ts: Seq<Seq<char>>, c: char)
    requires
        ts.len() >= 2,
    ensures
        spec_join_tokens(ts, c) == spec_join_tokens(ts.drop_last(), c) + seq![c] + ts.last(),
    decreases ts.len(),
{
    if ts.len() == 2 {
        assert(ts.drop_first().len() == 1);
        assert(ts.drop_first()[0] == ts[1]);
        assert(spec_join_tokens(ts.drop_first(), c) == ts[1]);
        assert(spec_join_tokens(ts, c) == ts[0] + seq![c] + ts[1]);
        assert(ts.drop_last().len() == 1);
        assert(ts.drop_last()[0] == ts[0]);
        assert(spec_join_tokens(ts.drop_last(), c) == ts[0]);
        assert(ts.last() == ts[1]);
        assert(spec_join_tokens(ts, c) =~= spec_join_tokens(ts.drop_last(), c) + seq![c]
            + ts.last());
    } else {
        lemma_join_tokens_snoc(ts.drop_first(), c);
        assert(ts.drop_first().last() == ts.last());
        assert(ts.drop_first().drop_last() =~= ts.drop_last().drop_first());
        assert(ts.drop_last().len() >= 2);
        assert(ts.drop_last()[0] == ts[0]);
        assert(spec_join_tokens(ts, c) =~= spec_join_tokens(ts.drop_last(), c) + seq![c]
            + ts.last());
    }
}

/// The rendered tokens of a row of primitives.
pub open spec fn spec_prim_tokens(prims: Seq<JsonPrimitive>, d: Delimiter) -> Seq<Seq<char>> {
    Seq::new(prims.len(), |i: int| spec_encode_primitive(prims[i], d))
}

proof fn lemma_join_primitives_as_tokens(prims: Seq<JsonPrimitive>, d: Delimiter)
    ensures
        spec_join_primitives(prims, d) == spec_join_tokens(spec_prim_tokens(prims, d), spec_delim_char(d)),
    decreases prims.len(),
{
    let ts = spec_prim_tokens(prims, d);
    if prims.len() == 0 {
        assert(ts.len() == 0);
    } else if prims.len() == 1 {
        assert(ts.len() == 1);
        assert(ts[0] == spec_encode_primitive(prims[0], d));
    } else {
        lemma_join_primitives_as_tokens(prims.drop_last(), d);
        assert(spec_prim_tokens(prims.drop_last(), d) =~= ts.drop_last());
        lemma_join_tokens_snoc(ts, spec_delim_char(d));
        assert(ts.last() == spec_encode_primitive(prims[prims.len() - 1], d));
        assert(spec_join_primitives(prims, d) == spec_join_tokens(ts, spec_delim_char(d)));
    }
}

/// Law: round-trip safety of one safe-unquoted string.  It is rendered
/// unchanged, and splitting it on the active delimiter leaves it whole.
pub proof fn lemma_unquoted_round_trip(s: Seq<char>, d: Delimiter)
    requires
        spec_is_safe_unquoted(s, d),
    ensures
        spec_encode_string_literal(s, d) == s,
        spec_split(s, spec_delim_char(d)) == seq![s],
{
    lemma_split_single(s, spec_delim_char(d));
}

/// Law: round-trip safety of a row.  A row of safe-unquoted strings,
/// rendered and joined with the active delimiter, splits back into
/// exactly those strings.
pub proof fn lemma_row_round_trip(prims: Seq<JsonPrimitive>, d: Delimiter)
    requires
        prims.len() > 0,
        forall|i: int|
            0 <= i < prims.len() ==> (#[trigger] prims[i]) is String && spec_is_safe_unquoted(
                prims[i]->String_0@,
                d,
            ),
    ensures
        spec_split(spec_join_primitives(prims, d), spec_delim_char(d)) == Seq::new(
            prims.len(),
            |i: int| prims[i]->String_0@,
        ),
{
    let c = spec_delim_char(d);
    let strs = Seq::new(prims.len(), |i: int| prims[i]->String_0@);
    lemma_join_primitives_as_tokens(prims, d);
    assert(spec_prim_tokens(prims, d) =~= strs) by {
        assert forall|i: int| 0 <= i < prims.len() implies spec_prim_tokens(prims, d)[i]
            == strs[i] by {
            assert(spec_encode_primitive(prims[i], d) == spec_encode_string_literal(
                prims[i]->String_0@,
                d,
            ));
        }
    }
    assert forall|i: int, j: int| 0 <= i < strs.len() && 0 <= j < strs[i].len() implies #[trigger] strs[i][j]
        != c by {
        assert(spec_is_safe_unquoted(prims[i]->String_0@, d));
        assert(strs[i] == prims[i]->String_0@);
        assert(strs[i][j] != c);
    }
    lemma_split_join(strs, c);
}

// ---------------------------------------------------------------------------
// Tabular correctness
// ---------------------------------------------------------------------------

proof fn lemma_tab_rows_shape(elems: Seq<JsonValue>, depth: nat, opts: EncodeOptions)
    ensures
        spec_tab_rows(elems, depth, opts).len() == elems.len(),
        forall|i: int|
            0 <= i < elems.len() ==> #[trigger] spec_tab_rows(elems, depth, opts)[i] == spec_line(
                depth,
                opts,
                spec_join_primitives(spec_prim_values(elems[i]->Object_0@), opts.delimiter),
            ),
    decreases elems.len(),
{
    if elems.len() > 0 {
        lemma_tab_rows_shape(elems.drop_last(), depth, opts);
        assert forall|i: int| 0 <= i < elems.len() implies #[trigger] spec_tab_rows(
            elems,
            depth,
            opts,
        )[i] == spec_line(
            depth,
            opts,
            spec_join_primitives(spec_prim_values(elems[i]->Object_0@), opts.delimiter),
        ) by {
            if i < elems.len() - 1 {
                assert(spec_tab_rows(elems, depth, opts)[i] == spec_tab_rows(
                    elems.drop_last(),
                    depth,
                    opts,
                )[i]);
                assert(elems.drop_last()[i] == elems[i]);
            }
        }
    }
}

/// Law: tabular correctness.  A tabular array of objects is rendered as
/// one header line carrying the sorted field list, followed by exactly
/// one row per element; each row holds the element's primitive values in
/// field order, as many values as there are fields.
pub proof fn lemma_tabular_encoding(
    key: Option<Seq<char>>,
    elems: Seq<JsonValue>,
    depth: nat,
    opts: EncodeOptions,
)
    requires
        spec_all_objects(elems),
        spec_is_tabular(elems),
    ensures
        ({
            let lines = spec_array_lines(key, elems, depth, opts);
            let fields = spec_key_views(elems[0]->Object_0@);
            &&& lines.len() == 1 + elems.len()
            &&& lines[0] == spec_line(
                depth,
                opts,
                spec_header(elems.len() as nat, key, Some(fields), opts.delimiter, opts.length_marker),
            )
            &&& forall|i: int|
                0 <= i < elems.len() ==> #[trigger] lines[i + 1] == spec_line(
                    (depth + 1) as nat,
                    opts,
                    spec_join_primitives(spec_prim_values(elems[i]->Object_0@), opts.delimiter),
                )
            &&& forall|i: int|
                0 <= i < elems.len() ==> #[trigger] spec_prim_values(elems[i]->Object_0@).len()
                    == fields.len()
        }),
{
    assert(elems.len() > 0);
    assert(elems[0] is Object);
    assert(!crate::normalize::spec_all_primitives(elems));
    assert(!crate::normalize::spec_all_arrays(elems));
    lemma_tab_rows_shape(elems, (depth + 1) as nat, opts);
    let lines = spec_array_lines(key, elems, depth, opts);
    let rows = spec_tab_rows(elems, (depth + 1) as nat, opts);
    assert forall|i: int| 0 <= i < elems.len() implies #[trigger] lines[i + 1] == spec_line(
        (depth + 1) as nat,
        opts,
        spec_join_primitives(spec_prim_values(elems[i]->Object_0@), opts.delimiter),
    ) by {
        assert(lines[i + 1] == rows[i]);
    }
    assert forall|i: int| 0 <= i < elems.len() implies #[trigger] spec_prim_values(
        elems[i]->Object_0@,
    ).len() == spec_key_views(elems[0]->Object_0@).len() by {
        assert(spec_key_views(elems[i]->Object_0@) == spec_key_views(elems[0]->Object_0@));
        assert(spec_key_views(elems[i]->Object_0@).len() == elems[i]->Object_0@.len());
        assert(spec_prim_values(elems[i]->Object_0@).len() == elems[i]->Object_0@.len());
    }
}

/// Law: each tabular row re-tokenizes into exactly one token per field,
/// provided the rendered cell tokens are free of the active delimiter
/// (a quoted cell may legitimately contain it).
pub proof fn lemma_row_token_count(vals: Seq<JsonPrimitive>, d: Delimiter)
    requires
        vals.len() > 0,
        forall|i: int, j: int|
            0 <= i < vals.len() && 0 <= j < spec_encode_primitive(vals[i], d).len()
                ==> #[trigger] spec_encode_primitive(vals[i], d)[j] != spec_delim_char(d),
    ensures
        spec_split(spec_join_primitives(vals, d), spec_delim_char(d)) == spec_prim_tokens(vals, d),
        spec_split(spec_join_primitives(vals, d), spec_delim_char(d)).len() == vals.len(),
{
    let c = spec_delim_char(d);
    let ts = spec_prim_tokens(vals, d);
    lemma_join_primitives_as_tokens(vals, d);
    assert forall|i: int, j: int| 0 <= i < ts.len() && 0 <= j < ts[i].len() implies #[trigger] ts[i][j]
        != c by {
        assert(ts[i] == spec_encode_primitive(vals[i], d));
        assert(spec_encode_primitive(vals[i], d)[j] != c);
    }
    lemma_split_join(ts, c);
}

// ---------------------------------------------------------------------------
// Header length and empty containers
// ---------------------------------------------------------------------------

/// Law: header length matches element count.  Whatever representation
/// the encoder chooses, the first line of an array unit is a header
/// whose bracketed number is the array's length.
pub proof fn lemma_header_length_matches(
    key: Option<Seq<char>>,
    elems: Seq<JsonValue>,
    depth: nat,
    opts: EncodeOptions,
)
    ensures
        exists|fields: Option<Seq<Seq<char>>>, tail: Seq<char>|
            spec_array_lines(key, elems, depth, opts)[0] == spec_line(
                depth,
                opts,
                #[trigger] (spec_header(
                    elems.len() as nat,
                    key,
                    fields,
                    opts.delimiter,
                    opts.length_marker,
                ) + tail),
            ),
{
    let d = opts.delimiter;
    let mk = opts.length_marker;
    let lines = spec_array_lines(key, elems, depth, opts);
    if elems.len() == 0 {
        let h = spec_header(0, key, None, d, mk);
        assert(h + Seq::<char>::empty() =~= h);
        assert(lines[0] == spec_line(
            depth,
            opts,
            spec_header(elems.len() as nat, key, None, d, mk) + Seq::<char>::empty(),
        ));
    } else if crate::normalize::spec_all_primitives(elems) {
        let h = spec_header(elems.len() as nat, key, None, d, mk);
        let tail = seq![' '] + spec_join_primitives(
            crate::encoders::spec_prims_of(elems),
            opts.delimiter,
        );
        assert(crate::encoders::spec_inline_content(key, elems, opts) == h + tail);
        assert(lines[0] == spec_line(
            depth,
            opts,
            spec_header(elems.len() as nat, key, None, d, mk) + tail,
        ));
    } else if crate::normalize::spec_all_arrays(elems) && crate::encoders::spec_all_prim_arrays(
        elems,
    ) {
        let h = spec_header(elems.len() as nat, key, None, d, mk);
        assert(h + Seq::<char>::empty() =~= h);
        assert(lines[0] == spec_line(
            depth,
            opts,
            spec_header(elems.len() as nat, key, None, d, mk) + Seq::<char>::empty(),
        ));
    } else if spec_all_objects(elems) && spec_is_tabular(elems) {
        let h = spec_header(
            elems.len() as nat,
            key,
            Some(spec_key_views(elems[0]->Object_0@)),
            d,
            mk,
        );
        assert(h + Seq::<char>::empty() =~= h);
        assert(lines[0] == spec_line(
            depth,
            opts,
            spec_header(
                elems.len() as nat,
                key,
                Some(spec_key_views(elems[0]->Object_0@)),
                d,
                mk,
            ) + Seq::<char>::empty(),
        ));
    } else {
        let h = spec_header(elems.len() as nat, key, None, d, mk);
        assert(h + Seq::<char>::empty() =~= h);
        assert(lines[0] == spec_line(
            depth,
            opts,
            spec_header(elems.len() as nat, key, None, d, mk) + Seq::<char>::empty(),
        ));
    }
}

/// Law: an empty object under a key renders as the single line `key:`
/// with no body beneath it.
pub proof fn lemma_empty_object_single_line(
    key: Seq<char>,
    m: Vec<(String, JsonValue)>,
    depth: nat,
    opts: EncodeOptions,
)
    requires
        m@.len() == 0,
    ensures
        spec_kv_lines(key, JsonValue::Object(m), depth, opts) == seq![
            spec_line(depth, opts, spec_encode_key(key) + seq![':']),
        ],
{
    assert(spec_kv_lines(key, JsonValue::Object(m), depth, opts) =~= seq![
        spec_line(depth, opts, spec_encode_key(key) + seq![':']),
    ]);
}

/// Law: an empty array under a key renders as the single header line
/// `key[0]:` (under default options), with no trailing space and no
/// body.
pub proof fn lemma_empty_array_single_line(
    key: Seq<char>,
    elems: Seq<JsonValue>,
    depth: nat,
    opts: EncodeOptions,
)
    requires
        elems.len() == 0,
    ensures
        spec_array_lines(Some(key), elems, depth, opts) == seq![
            spec_line(
                depth,
                opts,
                spec_header(0, Some(key), None, opts.delimiter, opts.length_marker),
            ),
        ],
{
}

/// The empty-array header under default options is exactly the key
/// followed by `[0]:`.
pub proof fn lemma_empty_array_header_shape(key: Seq<char>)
    ensures
        spec_header(0, Some(key), None, Delimiter::Comma, None) == spec_encode_key(key) + seq![
            '[',
            '0',
            ']',
            ':',
        ],
{
    assert(spec_decimal(0) == seq![crate::primitives::spec_digit(0)]);
    assert(spec_header(0, Some(key), None, Delimiter::Comma, None) =~= spec_encode_key(key) + seq![
        '[',
        '0',
        ']',
        ':',
    ]);
}

} // verus!

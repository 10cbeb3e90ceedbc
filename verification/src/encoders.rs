//! The structural encoder: given a value, a key context, and a depth, it
//! emits lines through the line writer, choosing inline, tabular, or
//! list-item strategies by the shape of each array.
//!
//! The whole output is pinned down by the `spec_*_lines` family of spec
//! functions; every executable encoder is proved to append exactly those
//! lines.

use vstd::prelude::*;

use crate::normalize::is_array_of_arrays;
use crate::normalize::is_array_of_objects;
use crate::normalize::is_array_of_primitives;
use crate::normalize::spec_all_arrays;
use crate::normalize::spec_all_objects;
use crate::normalize::spec_all_primitives;
use crate::primitives::encode_key;
use crate::primitives::encode_primitive;
use crate::primitives::format_header;
use crate::primitives::join_encoded_values;
use crate::primitives::spec_deref_prims;
use crate::primitives::spec_encode_key;
use crate::primitives::spec_encode_primitive;
use crate::primitives::spec_field_views;
use crate::primitives::spec_header;
use crate::primitives::spec_join_primitives;
use crate::primitives::spec_key_view;
use crate::types::EncodeOptions;
use crate::types::JsonPrimitive;
use crate::types::JsonValue;
use crate::types::elems_height;
use crate::types::lemma_elems_height_ge;
use crate::types::lemma_values_height_ge;
use crate::types::values_height;
use crate::writer::LineWriter;
use crate::writer::spec_join_lines;
use crate::writer::spec_repeat;
use crate::writer::spec_spaces;

verus! {

// ---------------------------------------------------------------------------
// Shape views
// ---------------------------------------------------------------------------

/// One output line at the given depth.
pub open spec fn spec_line(depth: nat, opts: EncodeOptions, content: Seq<char>) -> Seq<char> {
    spec_repeat(spec_spaces(opts.indent as nat), depth) + content
}

/// The primitives of an all-primitive element sequence.
pub open spec fn spec_prims_of(elems: Seq<JsonValue>) -> Seq<JsonPrimitive> {
    Seq::new(elems.len(), |i: int| elems[i]->Primitive_0)
}

/// The key views of a pair list, in representation order.
pub open spec fn spec_key_views(pairs: Seq<(String, JsonValue)>) -> Seq<Seq<char>> {
    Seq::new(pairs.len(), |i: int| pairs[i].0@)
}

/// The primitive values of a pair list, in representation order.
pub open spec fn spec_prim_values(pairs: Seq<(String, JsonValue)>) -> Seq<JsonPrimitive> {
    Seq::new(pairs.len(), |i: int| pairs[i].1->Primitive_0)
}

/// Every value of the pair list is a primitive.
pub open spec fn spec_all_prim_values(pairs: Seq<(String, JsonValue)>) -> bool {
    forall|i: int| 0 <= i < pairs.len() ==> (#[trigger] pairs[i]).1 is Primitive
}

/// Every element is an array of primitives.
pub open spec fn spec_all_prim_arrays(elems: Seq<JsonValue>) -> bool {
    forall|i: int|
        0 <= i < elems.len() ==> (#[trigger] elems[i]) is Array && spec_all_primitives(
            elems[i]->Array_0@,
        )
}

/// Every element is an object whose key views equal `hdr` and whose
/// values are all primitives.
pub open spec fn spec_rows_match(elems: Seq<JsonValue>, hdr: Seq<Seq<char>>) -> bool {
    forall|i: int|
        0 <= i < elems.len() ==> {
            &&& (#[trigger] elems[i]) is Object
            &&& spec_key_views(elems[i]->Object_0@) == hdr
            &&& spec_all_prim_values(elems[i]->Object_0@)
        }
}

/// Whether an array of objects is tabular: a nonempty shared key set
/// (the first element's, which canonical form keeps sorted) and only
/// primitive values under those keys.
pub open spec fn spec_is_tabular(elems: Seq<JsonValue>) -> bool {
    &&& elems.len() > 0
    &&& elems[0] is Object
    &&& spec_key_views(elems[0]->Object_0@).len() > 0
    &&& spec_rows_match(elems, spec_key_views(elems[0]->Object_0@))
}

/// The content of an inline primitive-array unit: the header, then a
/// space and the joined row when the array is nonempty.
pub open spec fn spec_inline_content(
    key: Option<Seq<char>>,
    elems: Seq<JsonValue>,
    opts: EncodeOptions,
) -> Seq<char> {
    let header = spec_header(
        elems.len() as nat,
        key,
        None,
        opts.delimiter,
        opts.length_marker,
    );
    if elems.len() == 0 {
        header
    } else {
        header + seq![' '] + spec_join_primitives(spec_prims_of(elems), opts.delimiter)
    }
}

// ---------------------------------------------------------------------------
// The encoding, as spec functions
// ---------------------------------------------------------------------------

/// List-item lines of an array of all-primitive arrays.
pub open spec fn spec_aoa_items(elems: Seq<JsonValue>, depth: nat, opts: EncodeOptions) -> Seq<
    Seq<char>,
>
    decreases elems.len(),
{
    if elems.len() == 0 {
        Seq::empty()
    } else {
        spec_aoa_items(elems.drop_last(), depth, opts) + seq![
            spec_line(
                depth,
                opts,
                seq!['-', ' '] + spec_inline_content(None, elems.last()->Array_0@, opts),
            ),
        ]
    }
}

/// Tabular rows: one line per object, the primitive values joined in
/// representation (canonical key) order.
pub open spec fn spec_tab_rows(elems: Seq<JsonValue>, depth: nat, opts: EncodeOptions) -> Seq<
    Seq<char>,
>
    decreases elems.len(),
{
    if elems.len() == 0 {
        Seq::empty()
    } else {
        spec_tab_rows(elems.drop_last(), depth, opts) + seq![
            spec_line(
                depth,
                opts,
                spec_join_primitives(
                    spec_prim_values(elems.last()->Object_0@),
                    opts.delimiter,
                ),
            ),
        ]
    }
}

/// The lines of one key/value unit of an object.
pub open spec fn spec_kv_lines(
    key: Seq<char>,
    v: JsonValue,
    depth: nat,
    opts: EncodeOptions,
) -> Seq<Seq<char>>
    decreases v, 0int,
{
    match v {
        JsonValue::Primitive(p) => seq![
            spec_line(
                depth,
                opts,
                spec_encode_key(key) + seq![':', ' '] + spec_encode_primitive(p, opts.delimiter),
            ),
        ],
        JsonValue::Array(arr) => spec_array_lines(Some(key), arr@, depth, opts),
        JsonValue::Object(m) => seq![spec_line(depth, opts, spec_encode_key(key) + seq![':'])]
            + spec_object_lines(m@, (depth + 1) as nat, opts),
    }
}

/// The lines of an object: one key/value unit per pair, in
/// representation (canonical key) order.
pub open spec fn spec_object_lines(
    pairs: Seq<(String, JsonValue)>,
    depth: nat,
    opts: EncodeOptions,
) -> Seq<Seq<char>>
    decreases pairs, 0int,
{
    if pairs.len() == 0 {
        Seq::empty()
    } else {
        spec_object_lines(pairs.drop_last(), depth, opts) + spec_kv_lines(
            pairs.last().0@,
            pairs.last().1,
            depth,
            opts,
        )
    }
}

/// The lines of an array unit, by shape: empty, inline primitives,
/// list of primitive rows, tabular, or the mixed list-item form.
pub open spec fn spec_array_lines(
    key: Option<Seq<char>>,
    elems: Seq<JsonValue>,
    depth: nat,
    opts: EncodeOptions,
) -> Seq<Seq<char>>
    decreases elems, 1int,
{
    let d = opts.delimiter;
    let mk = opts.length_marker;
    if elems.len() == 0 {
        seq![spec_line(depth, opts, spec_header(0, key, None, d, mk))]
    } else if spec_all_primitives(elems) {
        seq![spec_line(depth, opts, spec_inline_content(key, elems, opts))]
    } else if spec_all_arrays(elems) && spec_all_prim_arrays(elems) {
        seq![spec_line(depth, opts, spec_header(elems.len() as nat, key, None, d, mk))]
            + spec_aoa_items(elems, (depth + 1) as nat, opts)
    } else if spec_all_objects(elems) && spec_is_tabular(elems) {
        seq![
            spec_line(
                depth,
                opts,
                spec_header(
                    elems.len() as nat,
                    key,
                    Some(spec_key_views(elems[0]->Object_0@)),
                    d,
                    mk,
                ),
            ),
        ] + spec_tab_rows(elems, (depth + 1) as nat, opts)
    } else {
        seq![spec_line(depth, opts, spec_header(elems.len() as nat, key, None, d, mk))]
            + spec_list_items(elems, (depth + 1) as nat, opts)
    }
}

/// The list-item units of a mixed array, in element order.
pub open spec fn spec_list_items(elems: Seq<JsonValue>, depth: nat, opts: EncodeOptions) -> Seq<
    Seq<char>,
>
    decreases elems, 0int,
{
    if elems.len() == 0 {
        Seq::empty()
    } else {
        spec_list_items(elems.drop_last(), depth, opts) + spec_mixed_item(
            elems.last(),
            depth,
            opts,
        )
    }
}

/// One element of a mixed array as a list item.  An element that is an
/// array of non-primitives has no list-item form and produces no lines;
/// the surrounding header still counts it.
pub open spec fn spec_mixed_item(v: JsonValue, depth: nat, opts: EncodeOptions) -> Seq<Seq<char>>
    decreases v, 0int,
{
    match v {
        JsonValue::Primitive(p) => seq![
            spec_line(
                depth,
                opts,
                seq!['-', ' '] + spec_encode_primitive(p, opts.delimiter),
            ),
        ],
        JsonValue::Array(inner) => if spec_all_primitives(inner@) {
            seq![
                spec_line(depth, opts, seq!['-', ' '] + spec_inline_content(None, inner@, opts)),
            ]
        } else {
            Seq::empty()
        },
        JsonValue::Object(m) => spec_object_item_lines(m@, depth, opts),
    }
}

/// The object elements of an array, each rendered as a list item.
pub open spec fn spec_object_items(elems: Seq<JsonValue>, depth: nat, opts: EncodeOptions) -> Seq<
    Seq<char>,
>
    decreases elems, 3int,
{
    if elems.len() == 0 {
        Seq::empty()
    } else {
        spec_object_items(elems.drop_last(), depth, opts) + (if elems.last() is Object {
            spec_object_item_lines(elems.last()->Object_0@, depth, opts)
        } else {
            Seq::empty()
        })
    }
}

/// The first key/value unit of an object rendered as a list item: it
/// folds onto the `"- "` marker line, recursing into tabular and array
/// forms anchored there.
pub open spec fn spec_first_unit(
    key: Seq<char>,
    v: JsonValue,
    depth: nat,
    opts: EncodeOptions,
) -> Seq<Seq<char>>
    decreases v, 9int,
{
    let d = opts.delimiter;
    let mk = opts.length_marker;
    match v {
        JsonValue::Primitive(p) => seq![
            spec_line(
                depth,
                opts,
                seq!['-', ' '] + spec_encode_key(key) + seq![':', ' '] + spec_encode_primitive(
                    p,
                    d,
                ),
            ),
        ],
        JsonValue::Array(arr) => if spec_all_primitives(arr@) {
            seq![
                spec_line(depth, opts, seq!['-', ' '] + spec_inline_content(Some(key), arr@, opts)),
            ]
        } else if spec_all_objects(arr@) && spec_is_tabular(arr@) {
            seq![
                spec_line(
                    depth,
                    opts,
                    seq!['-', ' '] + spec_header(
                        arr@.len() as nat,
                        Some(key),
                        Some(spec_key_views(arr@[0]->Object_0@)),
                        d,
                        mk,
                    ),
                ),
            ] + spec_tab_rows(arr@, (depth + 1) as nat, opts)
        } else if spec_all_objects(arr@) {
            seq![
                spec_line(
                    depth,
                    opts,
                    seq!['-', ' '] + spec_header(arr@.len() as nat, Some(key), None, d, mk),
                ),
            ] + spec_object_items(arr@, (depth + 1) as nat, opts)
        } else {
            seq![
                spec_line(
                    depth,
                    opts,
                    seq!['-', ' '] + spec_header(arr@.len() as nat, Some(key), None, d, mk),
                ),
            ] + spec_array_lines(None, arr@, (depth + 1) as nat, opts)
        },
        JsonValue::Object(m) => seq![
            spec_line(depth, opts, seq!['-', ' '] + spec_encode_key(key) + seq![':']),
        ] + spec_object_lines(m@, (depth + 2) as nat, opts),
    }
}

/// An object as a list item: its first key/value unit folds onto the
/// `"- "` marker line, and every later key becomes an ordinary indented
/// unit one level deeper.  An empty object is a bare `-`.
pub open spec fn spec_object_item_lines(
    pairs: Seq<(String, JsonValue)>,
    depth: nat,
    opts: EncodeOptions,
) -> Seq<Seq<char>>
    decreases pairs, 4int,
{
    if pairs.len() == 0 {
        seq![spec_line(depth, opts, seq!['-'])]
    } else {
        spec_first_unit(pairs[0].0@, pairs[0].1, depth, opts) + spec_object_lines(
            pairs.drop_first(),
            (depth + 1) as nat,
            opts,
        )
    }
}

/// The whole encoding of a value: a primitive becomes its literal token;
/// a container's lines are joined with newlines.
pub open spec fn spec_encode_value(v: JsonValue, opts: EncodeOptions) -> Seq<char> {
    match v {
        JsonValue::Primitive(p) => spec_encode_primitive(p, opts.delimiter),
        JsonValue::Array(arr) => spec_join_lines(spec_array_lines(None, arr@, 0, opts)),
        JsonValue::Object(m) => spec_join_lines(spec_object_lines(m@, 0, opts)),
    }
}

// ---------------------------------------------------------------------------
// Executable helpers
// ---------------------------------------------------------------------------

fn collect_primitives<'a>(arr: &'a Vec<JsonValue>) -> (r: Vec<&'a JsonPrimitive>)
    requires
        spec_all_primitives(arr@),
    ensures
        spec_deref_prims(r@) == spec_prims_of(arr@),
{
    let mut prims: Vec<&JsonPrimitive> = Vec::new();
    let mut i: usize = 0;
    while i < arr.len()
        invariant
            spec_all_primitives(arr@),
            i <= arr@.len(),
            prims@.len() == i,
            spec_deref_prims(prims@) == spec_prims_of(arr@.take(i as int)),
        decreases arr@.len() - i,
    {
        let ghost pre = prims@;
        match &arr[i] {
            JsonValue::Primitive(p) => {
                prims.push(p);
                proof {
                    assert(arr@[i as int] == JsonValue::Primitive(*p));
                }
            },
            _ => {
                proof {
                    assert(arr@[i as int] is Primitive);
                    assert(false);
                }
            },
        }
        proof {
            assert forall|k: int| 0 <= k < i + 1 implies spec_deref_prims(prims@)[k]
                == spec_prims_of(arr@.take(i + 1))[k] by {
                assert(spec_deref_prims(prims@)[k] == *prims@[k]);
                assert(spec_prims_of(arr@.take(i + 1))[k] == arr@.take(i + 1)[k]->Primitive_0);
                assert(arr@.take(i + 1)[k] == arr@[k]);
                if k < i {
                    assert(prims@[k] == pre[k]);
                    assert(spec_deref_prims(pre)[k] == spec_prims_of(arr@.take(i as int))[k]);
                    assert(spec_deref_prims(pre)[k] == *pre[k]);
                    assert(spec_prims_of(arr@.take(i as int))[k] == arr@.take(
                        i as int,
                    )[k]->Primitive_0);
                    assert(arr@.take(i as int)[k] == arr@[k]);
                }
            }
            assert(spec_deref_prims(prims@).len() == i + 1);
            assert(spec_prims_of(arr@.take(i + 1)).len() == i + 1);
            assert(spec_deref_prims(prims@) =~= spec_prims_of(arr@.take(i + 1)));
        }
        i = i + 1;
    }
    proof {
        assert(arr@.take(arr@.len() as int) =~= arr@);
    }
    prims
}

fn collect_row_values<'a>(pairs: &'a Vec<(String, JsonValue)>) -> (r: Vec<&'a JsonPrimitive>)
    requires
        spec_all_prim_values(pairs@),
    ensures
        spec_deref_prims(r@) == spec_prim_values(pairs@),
{
    let mut vals: Vec<&JsonPrimitive> = Vec::new();
    let mut i: usize = 0;
    while i < pairs.len()
        invariant
            spec_all_prim_values(pairs@),
            i <= pairs@.len(),
            vals@.len() == i,
            spec_deref_prims(vals@) == spec_prim_values(pairs@.take(i as int)),
        decreases pairs@.len() - i,
    {
        let ghost pre = vals@;
        match &pairs[i].1 {
            JsonValue::Primitive(p) => {
                vals.push(p);
                proof {
                    assert(pairs@[i as int].1 == JsonValue::Primitive(*p));
                }
            },
            _ => {
                proof {
                    assert(pairs@[i as int].1 is Primitive);
                    assert(false);
                }
            },
        }
        proof {
            assert forall|k: int| 0 <= k < i + 1 implies spec_deref_prims(vals@)[k]
                == spec_prim_values(pairs@.take(i + 1))[k] by {
                assert(spec_deref_prims(vals@)[k] == *vals@[k]);
                assert(spec_prim_values(pairs@.take(i + 1))[k] == pairs@.take(
                    i + 1,
                )[k].1->Primitive_0);
                assert(pairs@.take(i + 1)[k] == pairs@[k]);
                if k < i {
                    assert(vals@[k] == pre[k]);
                    assert(spec_deref_prims(pre)[k] == spec_prim_values(pairs@.take(i as int))[k]);
                    assert(spec_deref_prims(pre)[k] == *pre[k]);
                    assert(spec_prim_values(pairs@.take(i as int))[k] == pairs@.take(
                        i as int,
                    )[k].1->Primitive_0);
                    assert(pairs@.take(i as int)[k] == pairs@[k]);
                }
            }
            assert(spec_deref_prims(vals@).len() == i + 1);
            assert(spec_prim_values(pairs@.take(i + 1)).len() == i + 1);
            assert(spec_deref_prims(vals@) =~= spec_prim_values(pairs@.take(i + 1)));
        }
        i = i + 1;
    }
    proof {
        assert(pairs@.take(pairs@.len() as int) =~= pairs@);
    }
    vals
}

fn collect_keys(pairs: &Vec<(String, JsonValue)>) -> (r: Vec<String>)
    ensures
        spec_field_views(r@) == spec_key_views(pairs@),
{
    let mut keys: Vec<String> = Vec::new();
    let mut i: usize = 0;
    while i < pairs.len()
        invariant
            i <= pairs@.len(),
            keys@.len() == i,
            spec_field_views(keys@) == spec_key_views(pairs@.take(i as int)),
        decreases pairs@.len() - i,
    {
        let ghost pre = keys@;
        keys.push(pairs[i].0.clone());
        proof {
            assert(keys@ == pre.push(pairs@[i as int].0));
            assert(keys@.len() == i + 1);
            assert forall|k: int| 0 <= k < i + 1 implies spec_field_views(keys@)[k]
                == spec_key_views(pairs@.take(i + 1))[k] by {
                assert(spec_field_views(keys@)[k] == keys@[k]@);
                assert(spec_key_views(pairs@.take(i + 1))[k] == pairs@.take(i + 1)[k].0@);
                assert(pairs@.take(i + 1)[k] == pairs@[k]);
                if k < i {
                    assert(keys@[k] == pre[k]);
                    assert(spec_field_views(pre)[k] == spec_key_views(pairs@.take(i as int))[k]);
                    assert(spec_field_views(pre)[k] == pre[k]@);
                    assert(spec_key_views(pairs@.take(i as int))[k] == pairs@.take(
                        i as int,
                    )[k].0@);
                    assert(pairs@.take(i as int)[k] == pairs@[k]);
                }
            }
            assert(spec_field_views(keys@).len() == i + 1);
            assert(spec_key_views(pairs@.take(i + 1)).len() == i + 1);
            assert(spec_field_views(keys@) =~= spec_key_views(pairs@.take(i + 1)));
        }
        i = i + 1;
    }
    proof {
        assert(pairs@.take(pairs@.len() as int) =~= pairs@);
    }
    keys
}

fn arrays_all_primitive(arr: &Vec<JsonValue>) -> (r: bool)
    ensures
        r == spec_all_prim_arrays(arr@),
{
    let mut i: usize = 0;
    while i < arr.len()
        invariant
            i <= arr@.len(),
            forall|j: int|
                0 <= j < i ==> (#[trigger] arr@[j]) is Array && spec_all_primitives(
                    arr@[j]->Array_0@,
                ),
        decreases arr@.len() - i,
    {
        match &arr[i] {
            JsonValue::Array(inner) => {
                if !is_array_of_primitives(inner) {
                    return false;
                }
            },
            _ => {
                return false;
            },
        }
        i = i + 1;
    }
    true
}

fn is_tabular_array(arr: &Vec<JsonValue>, header: &Vec<String>) -> (r: bool)
    ensures
        r == spec_rows_match(arr@, spec_field_views(header@)),
{
    let mut i: usize = 0;
    while i < arr.len()
        invariant
            i <= arr@.len(),
            forall|j: int|
                0 <= j < i ==> {
                    &&& (#[trigger] arr@[j]) is Object
                    &&& spec_key_views(arr@[j]->Object_0@) == spec_field_views(header@)
                    &&& spec_all_prim_values(arr@[j]->Object_0@)
                },
        decreases arr@.len() - i,
    {
        match &arr[i] {
            JsonValue::Object(pairs) => {
                if pairs.len() != header.len() {
                    proof {
                        assert(spec_key_views(pairs@).len() != spec_field_views(header@).len());
                    }
                    return false;
                }
                let mut j: usize = 0;
                while j < pairs.len()
                    invariant
                        i < arr@.len(),
                        arr@[i as int] is Object,
                        pairs@ == arr@[i as int]->Object_0@,
                        pairs@.len() == header@.len(),
                        j <= pairs@.len(),
                        forall|k: int| 0 <= k < j ==> (#[trigger] pairs@[k]).0@ == header@[k]@,
                        forall|k: int| 0 <= k < j ==> (#[trigger] pairs@[k]).1 is Primitive,
                    decreases pairs@.len() - j,
                {
                    if !(pairs[j].0 == header[j]) {
                        proof {
                            assert(spec_key_views(pairs@)[j as int] != spec_field_views(
                                header@,
                            )[j as int]);
                        }
                        return false;
                    }
                    match &pairs[j].1 {
                        JsonValue::Primitive(_) => {},
                        _ => {
                            proof {
                                assert(!spec_all_prim_values(pairs@)) by {
                                    assert(pairs@[j as int].1 !is Primitive);
                                }
                            }
                            return false;
                        },
                    }
                    j = j + 1;
                }
                proof {
                    assert(spec_key_views(pairs@).len() == spec_field_views(header@).len());
                    assert forall|k: int| 0 <= k < pairs@.len() implies spec_key_views(pairs@)[k]
                        == spec_field_views(header@)[k] by {
                        assert(spec_key_views(pairs@)[k] == pairs@[k].0@);
                        assert(spec_field_views(header@)[k] == header@[k]@);
                    }
                    assert(spec_key_views(pairs@) =~= spec_field_views(header@));
                    assert forall|k: int| 0 <= k < pairs@.len() implies (#[trigger] pairs@[k]).1
                        is Primitive by {}
                    assert(spec_all_prim_values(pairs@));
                }
            },
            _ => {
                return false;
            },
        }
        i = i + 1;
    }
    true
}

fn detect_tabular_header(arr: &Vec<JsonValue>) -> (r: Option<Vec<String>>)
    ensures
        (r matches Some(h) ==> spec_is_tabular(arr@) && spec_field_views(h@) == spec_key_views(
            arr@[0]->Object_0@,
        )),
        (r is None ==> !spec_is_tabular(arr@)),
{
    if arr.len() == 0 {
        return None;
    }
    match &arr[0] {
        JsonValue::Object(pairs) => {
            let keys = collect_keys(pairs);
            if keys.len() == 0 {
                proof {
                    assert(spec_key_views(arr@[0]->Object_0@).len() == 0);
                }
                return None;
            }
            if is_tabular_array(arr, &keys) {
                Some(keys)
            } else {
                None
            }
        },
        _ => None,
    }
}

/// Builds the one-line content of an inline primitive array: the header,
/// then a space and the joined row when nonempty.
fn inline_unit_string(key: Option<&str>, arr: &Vec<JsonValue>, options: &EncodeOptions) -> (r:
    String)
    requires
        spec_all_primitives(arr@),
    ensures
        r@ == spec_inline_content(spec_key_view(key), arr@, *options),
{
    let mut content = format_header(arr.len(), key, None, &options.delimiter, options.length_marker);
    if arr.len() > 0 {
        let prims = collect_primitives(arr);
        let joined = join_encoded_values(&prims, &options.delimiter);
        content.append(" ");
        content.append(joined.as_str());
        proof {
            reveal_strlit(" ");
            assert(content@ =~= spec_inline_content(spec_key_view(key), arr@, *options));
        }
    }
    content
}

// ---------------------------------------------------------------------------
// Executable encoders
// ---------------------------------------------------------------------------

fn write_tabular_rows(
    arr: &Vec<JsonValue>,
    writer: &mut LineWriter,
    depth: usize,
    options: &EncodeOptions,
)
    requires
        forall|i: int|
            0 <= i < arr@.len() ==> (#[trigger] arr@[i]) is Object && spec_all_prim_values(
                arr@[i]->Object_0@,
            ),
        old(writer).unit() == spec_spaces(options.indent as nat),
    ensures
        final(writer).unit() == old(writer).unit(),
        final(writer).lines_view() == old(writer).lines_view() + spec_tab_rows(
            arr@,
            depth as nat,
            *options,
        ),
{
    let ghost w0 = writer.lines_view();
    let mut i: usize = 0;
    while i < arr.len()
        invariant
            i <= arr@.len(),
            forall|j: int|
                0 <= j < arr@.len() ==> (#[trigger] arr@[j]) is Object && spec_all_prim_values(
                    arr@[j]->Object_0@,
                ),
            writer.unit() == spec_spaces(options.indent as nat),
            writer.lines_view() == w0 + spec_tab_rows(arr@.take(i as int), depth as nat, *options),
        decreases arr@.len() - i,
    {
        match &arr[i] {
            JsonValue::Object(pairs) => {
                let vals = collect_row_values(pairs);
                let joined = join_encoded_values(&vals, &options.delimiter);
                writer.push(depth, joined);
            },
            _ => {
                proof {
                    assert(arr@[i as int] is Object);
                    assert(false);
                }
            },
        }
        proof {
            assert(arr@.take(i + 1).drop_last() =~= arr@.take(i as int));
            assert(arr@.take(i + 1).last() == arr@[i as int]);
            assert(writer.lines_view() =~= w0 + spec_tab_rows(
                arr@.take(i + 1),
                depth as nat,
                *options,
            ));
        }
        i = i + 1;
    }
    proof {
        assert(arr@.take(arr@.len() as int) =~= arr@);
    }
}

fn encode_array_of_objects_as_tabular(
    key: Option<&str>,
    arr: &Vec<JsonValue>,
    header: &Vec<String>,
    writer: &mut LineWriter,
    depth: usize,
    options: &EncodeOptions,
)
    requires
        depth as int + 1 <= usize::MAX as int,
        spec_is_tabular(arr@),
        spec_field_views(header@) == spec_key_views(arr@[0]->Object_0@),
        old(writer).unit() == spec_spaces(options.indent as nat),
    ensures
        final(writer).unit() == old(writer).unit(),
        final(writer).lines_view() == old(writer).lines_view() + (seq![
            spec_line(
                depth as nat,
                *options,
                spec_header(
                    arr@.len() as nat,
                    spec_key_view(key),
                    Some(spec_key_views(arr@[0]->Object_0@)),
                    options.delimiter,
                    options.length_marker,
                ),
            ),
        ] + spec_tab_rows(arr@, (depth + 1) as nat, *options)),
{
    let header_str = format_header(
        arr.len(),
        key,
        Some(header),
        &options.delimiter,
        options.length_marker,
    );
    writer.push(depth, header_str);
    write_tabular_rows(arr, writer, depth + 1, options);
    proof {
        assert(final(writer).lines_view() =~= old(writer).lines_view() + (seq![
            spec_line(
                depth as nat,
                *options,
                spec_header(
                    arr@.len() as nat,
                    spec_key_view(key),
                    Some(spec_key_views(arr@[0]->Object_0@)),
                    options.delimiter,
                    options.length_marker,
                ),
            ),
        ] + spec_tab_rows(arr@, (depth + 1) as nat, *options)));
    }
}

fn encode_array_of_arrays_as_list_items(
    key: Option<&str>,
    arr: &Vec<JsonValue>,
    writer: &mut LineWriter,
    depth: usize,
    options: &EncodeOptions,
)
    requires
        depth as int + 1 <= usize::MAX as int,
        spec_all_prim_arrays(arr@),
        old(writer).unit() == spec_spaces(options.indent as nat),
    ensures
        final(writer).unit() == old(writer).unit(),
        final(writer).lines_view() == old(writer).lines_view() + (seq![
            spec_line(
                depth as nat,
                *options,
                spec_header(
                    arr@.len() as nat,
                    spec_key_view(key),
                    None,
                    options.delimiter,
                    options.length_marker,
                ),
            ),
        ] + spec_aoa_items(arr@, (depth + 1) as nat, *options)),
{
    let header = format_header(arr.len(), key, None, &options.delimiter, options.length_marker);
    writer.push(depth, header);
    let ghost w1 = writer.lines_view();
    let mut i: usize = 0;
    while i < arr.len()
        invariant
            i <= arr@.len(),
            depth as int + 1 <= usize::MAX as int,
            spec_all_prim_arrays(arr@),
            writer.unit() == spec_spaces(options.indent as nat),
            writer.lines_view() == w1 + spec_aoa_items(
                arr@.take(i as int),
                (depth + 1) as nat,
                *options,
            ),
        decreases arr@.len() - i,
    {
        match &arr[i] {
            JsonValue::Array(inner) => {
                let mut content = String::from_str("- ");
                let unit_str = inline_unit_string(None, inner, options);
                content.append(unit_str.as_str());
                proof {
                    reveal_strlit("- ");
                    assert(content@ =~= seq!['-', ' '] + spec_inline_content(
                        None,
                        inner@,
                        *options,
                    ));
                }
                writer.push(depth + 1, content);
            },
            _ => {
                proof {
                    assert(arr@[i as int] is Array);
                    assert(false);
                }
            },
        }
        proof {
            assert(arr@.take(i + 1).drop_last() =~= arr@.take(i as int));
            assert(arr@.take(i + 1).last() == arr@[i as int]);
            assert(writer.lines_view() =~= w1 + spec_aoa_items(
                arr@.take(i + 1),
                (depth + 1) as nat,
                *options,
            ));
        }
        i = i + 1;
    }
    proof {
        assert(arr@.take(arr@.len() as int) =~= arr@);
        assert(writer.lines_view() =~= old(writer).lines_view() + (seq![
            spec_line(
                depth as nat,
                *options,
                spec_header(
                    arr@.len() as nat,
                    spec_key_view(key),
                    None,
                    options.delimiter,
                    options.length_marker,
                ),
            ),
        ] + spec_aoa_items(arr@, (depth + 1) as nat, *options)));
    }
}

/// Encodes an object: one key/value unit per pair, in representation
/// order — which is ascending key order exactly when the pair list is
/// canonical ([`crate::types::keys_sorted`], established by
/// [`crate::object_from_pairs`]).
pub fn encode_object(
    obj: &Vec<(String, JsonValue)>,
    writer: &mut LineWriter,
    depth: usize,
    options: &EncodeOptions,
)
    requires
        depth as int + 2 * values_height(obj@) + 2 <= usize::MAX as int,
        old(writer).unit() == spec_spaces(options.indent as nat),
    ensures
        final(writer).unit() == old(writer).unit(),
        final(writer).lines_view() == old(writer).lines_view() + spec_object_lines(
            obj@,
            depth as nat,
            *options,
        ),
    decreases obj@, 9int,
{
    let ghost w0 = writer.lines_view();
    let mut i: usize = 0;
    while i < obj.len()
        invariant
            i <= obj@.len(),
            depth as int + 2 * values_height(obj@) + 2 <= usize::MAX as int,
            writer.unit() == spec_spaces(options.indent as nat),
            writer.lines_view() == w0 + spec_object_lines(
                obj@.take(i as int),
                depth as nat,
                *options,
            ),
        decreases obj@.len() - i,
    {
        proof {
            lemma_values_height_ge(obj@, i as int);
        }
        encode_key_value_pair(obj[i].0.as_str(), &obj[i].1, writer, depth, options);
        proof {
            assert(obj@.take(i + 1).drop_last() =~= obj@.take(i as int));
            assert(obj@.take(i + 1).last() == obj@[i as int]);
            assert(writer.lines_view() =~= w0 + spec_object_lines(
                obj@.take(i + 1),
                depth as nat,
                *options,
            ));
        }
        i = i + 1;
    }
    proof {
        assert(obj@.take(obj@.len() as int) =~= obj@);
    }
}

fn encode_key_value_pair(
    key: &str,
    value: &JsonValue,
    writer: &mut LineWriter,
    depth: usize,
    options: &EncodeOptions,
)
    requires
        depth as int + 2 * value.height() + 2 <= usize::MAX as int,
        old(writer).unit() == spec_spaces(options.indent as nat),
    ensures
        final(writer).unit() == old(writer).unit(),
        final(writer).lines_view() == old(writer).lines_view() + spec_kv_lines(
            key@,
            *value,
            depth as nat,
            *options,
        ),
    decreases *value, 9int,
{
    match value {
        JsonValue::Primitive(p) => {
            let mut content = encode_key(key);
            content.append(": ");
            let tok = encode_primitive(p, &options.delimiter);
            content.append(tok.as_str());
            proof {
                reveal_strlit(": ");
                assert(content@ =~= spec_encode_key(key@) + seq![':', ' ']
                    + spec_encode_primitive(*p, options.delimiter));
            }
            writer.push(depth, content);
            proof {
                assert(writer.lines_view() =~= old(writer).lines_view() + spec_kv_lines(
                    key@,
                    *value,
                    depth as nat,
                    *options,
                ));
            }
        },
        JsonValue::Array(arr) => {
            encode_array(Some(key), arr, writer, depth, options);
        },
        JsonValue::Object(m) => {
            let mut content = encode_key(key);
            content.append(":");
            proof {
                reveal_strlit(":");
                assert(content@ =~= spec_encode_key(key@) + seq![':']);
            }
            writer.push(depth, content);
            encode_object(m, writer, depth + 1, options);
            proof {
                assert(writer.lines_view() =~= old(writer).lines_view() + spec_kv_lines(
                    key@,
                    *value,
                    depth as nat,
                    *options,
                ));
            }
        },
    }
}

/// Encodes an array unit, dispatching on its shape.
pub fn encode_array(
    key: Option<&str>,
    arr: &Vec<JsonValue>,
    writer: &mut LineWriter,
    depth: usize,
    options: &EncodeOptions,
)
    requires
        depth as int + 2 * (1 + elems_height(arr@)) + 2 <= usize::MAX as int,
        old(writer).unit() == spec_spaces(options.indent as nat),
    ensures
        final(writer).unit() == old(writer).unit(),
        final(writer).lines_view() == old(writer).lines_view() + spec_array_lines(
            spec_key_view(key),
            arr@,
            depth as nat,
            *options,
        ),
    decreases arr@, 3int,
{
    if arr.len() == 0 {
        let header = format_header(0, key, None, &options.delimiter, options.length_marker);
        writer.push(depth, header);
        proof {
            assert(writer.lines_view() =~= old(writer).lines_view() + spec_array_lines(
                spec_key_view(key),
                arr@,
                depth as nat,
                *options,
            ));
        }
        return ;
    }
    if is_array_of_primitives(arr) {
        let content = inline_unit_string(key, arr, options);
        writer.push(depth, content);
        proof {
            assert(writer.lines_view() =~= old(writer).lines_view() + spec_array_lines(
                spec_key_view(key),
                arr@,
                depth as nat,
                *options,
            ));
        }
        return ;
    }
    if is_array_of_arrays(arr) {
        if arrays_all_primitive(arr) {
            encode_array_of_arrays_as_list_items(key, arr, writer, depth, options);
            return ;
        }
    }
    if is_array_of_objects(arr) {
        proof {
            assert(arr@[0] is Object);
            assert(!spec_all_arrays(arr@));
        }
        let tab = detect_tabular_header(arr);
        match tab {
            Some(header) => {
                encode_array_of_objects_as_tabular(key, arr, &header, writer, depth, options);
            },
            None => {
                encode_mixed_array_as_list_items(key, arr, writer, depth, options);
            },
        }
        return ;
    }
    encode_mixed_array_as_list_items(key, arr, writer, depth, options);
}

#[verifier::rlimit(50)]
fn encode_mixed_array_as_list_items(
    key: Option<&str>,
    arr: &Vec<JsonValue>,
    writer: &mut LineWriter,
    depth: usize,
    options: &EncodeOptions,
)
    requires
        depth as int + 2 * (1 + elems_height(arr@)) + 2 <= usize::MAX as int,
        old(writer).unit() == spec_spaces(options.indent as nat),
    ensures
        final(writer).unit() == old(writer).unit(),
        final(writer).lines_view() == old(writer).lines_view() + (seq![
            spec_line(
                depth as nat,
                *options,
                spec_header(
                    arr@.len() as nat,
                    spec_key_view(key),
                    None,
                    options.delimiter,
                    options.length_marker,
                ),
            ),
        ] + spec_list_items(arr@, (depth + 1) as nat, *options)),
    decreases arr@, 2int,
{
    let header = format_header(arr.len(), key, None, &options.delimiter, options.length_marker);
    writer.push(depth, header);
    let ghost w1 = writer.lines_view();
    let mut i: usize = 0;
    while i < arr.len()
        invariant
            i <= arr@.len(),
            depth as int + 2 * (1 + elems_height(arr@)) + 2 <= usize::MAX as int,
            writer.unit() == spec_spaces(options.indent as nat),
            writer.lines_view() == w1 + spec_list_items(
                arr@.take(i as int),
                (depth + 1) as nat,
                *options,
            ),
        decreases arr@.len() - i,
    {
        proof {
            lemma_elems_height_ge(arr@, i as int);
        }
        match &arr[i] {
            JsonValue::Primitive(p) => {
                let mut content = String::from_str("- ");
                let tok = encode_primitive(p, &options.delimiter);
                content.append(tok.as_str());
                proof {
                    reveal_strlit("- ");
                    assert(arr@[i as int] == JsonValue::Primitive(*p));
                    assert(content@ =~= seq!['-', ' '] + spec_encode_primitive(
                        *p,
                        options.delimiter,
                    ));
                }
                writer.push(depth + 1, content);
            },
            JsonValue::Array(inner) => {
                if is_array_of_primitives(inner) {
                    let mut content = String::from_str("- ");
                    let unit_str = inline_unit_string(None, inner, options);
                    content.append(unit_str.as_str());
                    proof {
                        reveal_strlit("- ");
                        assert(arr@[i as int] == JsonValue::Array(*inner));
                        assert(content@ =~= seq!['-', ' '] + spec_inline_content(
                            None,
                            inner@,
                            *options,
                        ));
                    }
                    writer.push(depth + 1, content);
                } else {
                    proof {
                        assert(arr@[i as int] == JsonValue::Array(*inner));
                        assert(spec_mixed_item(arr@[i as int], (depth + 1) as nat, *options)
                            =~= Seq::<Seq<char>>::empty());
                    }
                }
            },
            JsonValue::Object(m) => {
                proof {
                    assert(arr@[i as int] == JsonValue::Object(*m));
                }
                encode_object_as_list_item(m, writer, depth + 1, options);
            },
        }
        proof {
            assert(arr@.take(i + 1).drop_last() =~= arr@.take(i as int));
            assert(arr@.take(i + 1).last() == arr@[i as int]);
            assert(spec_list_items(arr@.take(i + 1), (depth + 1) as nat, *options)
                == spec_list_items(arr@.take(i as int), (depth + 1) as nat, *options)
                + spec_mixed_item(arr@[i as int], (depth + 1) as nat, *options));
            assert(writer.lines_view() =~= w1 + spec_list_items(
                arr@.take(i + 1),
                (depth + 1) as nat,
                *options,
            ));
        }
        i = i + 1;
    }
    proof {
        assert(arr@.take(arr@.len() as int) =~= arr@);
        assert(writer.lines_view() =~= old(writer).lines_view() + (seq![
            spec_line(
                depth as nat,
                *options,
                spec_header(
                    arr@.len() as nat,
                    spec_key_view(key),
                    None,
                    options.delimiter,
                    options.length_marker,
                ),
            ),
        ] + spec_list_items(arr@, (depth + 1) as nat, *options)));
    }
}

#[verifier::rlimit(100)]
fn encode_object_as_list_item(
    obj: &Vec<(String, JsonValue)>,
    writer: &mut LineWriter,
    depth: usize,
    options: &EncodeOptions,
)
    requires
        depth as int + 2 * (1 + values_height(obj@)) + 2 <= usize::MAX as int,
        old(writer).unit() == spec_spaces(options.indent as nat),
    ensures
        final(writer).unit() == old(writer).unit(),
        final(writer).lines_view() == old(writer).lines_view() + spec_object_item_lines(
            obj@,
            depth as nat,
            *options,
        ),
    decreases obj@, 9int,
{
    if obj.len() == 0 {
        let content = String::from_str("-");
        proof {
            reveal_strlit("-");
            assert(content@ =~= seq!['-']);
        }
        writer.push(depth, content);
        proof {
            assert(writer.lines_view() =~= old(writer).lines_view() + spec_object_item_lines(
                obj@,
                depth as nat,
                *options,
            ));
        }
        return ;
    }
    proof {
        lemma_values_height_ge(obj@, 0);
    }
    let first_key = obj[0].0.as_str();
    match &obj[0].1 {
        JsonValue::Primitive(p) => {
            let mut content = String::from_str("- ");
            let ek = encode_key(first_key);
            content.append(ek.as_str());
            content.append(": ");
            let tok = encode_primitive(p, &options.delimiter);
            content.append(tok.as_str());
            proof {
                reveal_strlit("- ");
                reveal_strlit(": ");
                assert(content@ =~= seq!['-', ' '] + spec_encode_key(first_key@) + seq![':', ' ']
                    + spec_encode_primitive(*p, options.delimiter));
            }
            writer.push(depth, content);
            proof {
                assert(writer.lines_view() =~= old(writer).lines_view() + spec_first_unit(
                    obj@[0].0@,
                    obj@[0].1,
                    depth as nat,
                    *options,
                ));
            }
        },
        JsonValue::Array(arr) => {
            if is_array_of_primitives(arr) {
                let mut content = String::from_str("- ");
                let unit_str = inline_unit_string(Some(first_key), arr, options);
                content.append(unit_str.as_str());
                proof {
                    reveal_strlit("- ");
                    assert(content@ =~= seq!['-', ' '] + spec_inline_content(
                        Some(first_key@),
                        arr@,
                        *options,
                    ));
                }
                writer.push(depth, content);
                proof {
                    assert(writer.lines_view() =~= old(writer).lines_view() + spec_first_unit(
                        obj@[0].0@,
                        obj@[0].1,
                        depth as nat,
                        *options,
                    ));
                }
            } else if is_array_of_objects(arr) {
                let tab = detect_tabular_header(arr);
                match tab {
                    Some(header) => {
                        let mut content = String::from_str("- ");
                        let h = format_header(
                            arr.len(),
                            Some(first_key),
                            Some(&header),
                            &options.delimiter,
                            options.length_marker,
                        );
                        content.append(h.as_str());
                        proof {
                            reveal_strlit("- ");
                            assert(content@ =~= seq!['-', ' '] + spec_header(
                                arr@.len() as nat,
                                Some(first_key@),
                                Some(spec_key_views(arr@[0]->Object_0@)),
                                options.delimiter,
                                options.length_marker,
                            ));
                        }
                        writer.push(depth, content);
                        write_tabular_rows(arr, writer, depth + 1, options);
                        proof {
                            assert(writer.lines_view() =~= old(writer).lines_view()
                                + spec_first_unit(obj@[0].0@, obj@[0].1, depth as nat, *options));
                        }
                    },
                    None => {
                        let mut content = String::from_str("- ");
                        let h = format_header(
                            arr.len(),
                            Some(first_key),
                            None,
                            &options.delimiter,
                            options.length_marker,
                        );
                        content.append(h.as_str());
                        proof {
                            reveal_strlit("- ");
                            assert(content@ =~= seq!['-', ' '] + spec_header(
                                arr@.len() as nat,
                                Some(first_key@),
                                None,
                                options.delimiter,
                                options.length_marker,
                            ));
                        }
                        writer.push(depth, content);
                        let ghost w1 = writer.lines_view();
                        let mut j: usize = 0;
                        while j < arr.len()
                            invariant
                                j <= arr@.len(),
                                depth as int + 2 * (1 + values_height(obj@)) + 2 <= usize::MAX
                                    as int,
                                obj@.len() > 0,
                                obj@[0].1 is Array,
                                arr@ == obj@[0].1->Array_0@,
                                spec_all_objects(arr@),
                                writer.unit() == spec_spaces(options.indent as nat),
                                writer.lines_view() == w1 + spec_object_items(
                                    arr@.take(j as int),
                                    (depth + 1) as nat,
                                    *options,
                                ),
                            decreases arr@.len() - j,
                        {
                            proof {
                                lemma_values_height_ge(obj@, 0);
                                lemma_elems_height_ge(arr@, j as int);
                            }
                            match &arr[j] {
                                JsonValue::Object(inner) => {
                                    encode_object_as_list_item(inner, writer, depth + 1, options);
                                },
                                _ => {
                                    proof {
                                        assert(arr@[j as int] is Object);
                                        assert(false);
                                    }
                                },
                            }
                            proof {
                                assert(arr@.take(j + 1).drop_last() =~= arr@.take(j as int));
                                assert(arr@.take(j + 1).last() == arr@[j as int]);
                                assert(writer.lines_view() =~= w1 + spec_object_items(
                                    arr@.take(j + 1),
                                    (depth + 1) as nat,
                                    *options,
                                ));
                            }
                            j = j + 1;
                        }
                        proof {
                            assert(arr@.take(arr@.len() as int) =~= arr@);
                            assert(writer.lines_view() =~= old(writer).lines_view()
                                + spec_first_unit(obj@[0].0@, obj@[0].1, depth as nat, *options));
                        }
                    },
                }
            } else {
                let mut content = String::from_str("- ");
                let h = format_header(
                    arr.len(),
                    Some(first_key),
                    None,
                    &options.delimiter,
                    options.length_marker,
                );
                content.append(h.as_str());
                proof {
                    reveal_strlit("- ");
                    assert(content@ =~= seq!['-', ' '] + spec_header(
                        arr@.len() as nat,
                        Some(first_key@),
                        None,
                        options.delimiter,
                        options.length_marker,
                    ));
                }
                writer.push(depth, content);
                encode_array(None, arr, writer, depth + 1, options);
                proof {
                    assert(writer.lines_view() =~= old(writer).lines_view() + spec_first_unit(
                        obj@[0].0@,
                        obj@[0].1,
                        depth as nat,
                        *options,
                    ));
                }
            }
        },
        JsonValue::Object(m) => {
            let mut content = String::from_str("- ");
            let ek = encode_key(first_key);
            content.append(ek.as_str());
            content.append(":");
            proof {
                reveal_strlit("- ");
                reveal_strlit(":");
                assert(content@ =~= seq!['-', ' '] + spec_encode_key(first_key@) + seq![':']);
            }
            writer.push(depth, content);
            encode_object(m, writer, depth + 2, options);
            proof {
                assert(writer.lines_view() =~= old(writer).lines_view() + spec_first_unit(
                    obj@[0].0@,
                    obj@[0].1,
                    depth as nat,
                    *options,
                ));
            }
        },
    }
    let ghost w_first = writer.lines_view();
    let mut i: usize = 1;
    while i < obj.len()
        invariant
            1 <= i <= obj@.len(),
            depth as int + 2 * (1 + values_height(obj@)) + 2 <= usize::MAX as int,
            writer.unit() == spec_spaces(options.indent as nat),
            writer.lines_view() == w_first + spec_object_lines(
                obj@.subrange(1, i as int),
                (depth + 1) as nat,
                *options,
            ),
        decreases obj@.len() - i,
    {
        proof {
            lemma_values_height_ge(obj@, i as int);
        }
        encode_key_value_pair(obj[i].0.as_str(), &obj[i].1, writer, depth + 1, options);
        proof {
            assert(obj@.subrange(1, i + 1).drop_last() =~= obj@.subrange(1, i as int));
            assert(obj@.subrange(1, i + 1).last() == obj@[i as int]);
            assert(writer.lines_view() =~= w_first + spec_object_lines(
                obj@.subrange(1, i + 1),
                (depth + 1) as nat,
                *options,
            ));
        }
        i = i + 1;
    }
    proof {
        assert(obj@.subrange(1, obj@.len() as int) =~= obj@.drop_first());
        assert(writer.lines_view() =~= old(writer).lines_view() + spec_object_item_lines(
            obj@,
            depth as nat,
            *options,
        ));
    }
}

/// Encodes a whole value: a primitive becomes its literal; a container
/// is rendered through a fresh line writer at depth zero.  Canonical
/// (ascending-key) output is guaranteed for well-formed values; see
/// [`crate::encode`].
pub fn encode_value(value: &JsonValue, options: &EncodeOptions) -> (r: String)
    requires
        2 * value.height() + 2 <= usize::MAX as int,
    ensures
        r@ == spec_encode_value(*value, *options),
{
    match value {
        JsonValue::Primitive(p) => encode_primitive(p, &options.delimiter),
        JsonValue::Array(arr) => {
            let mut writer = LineWriter::new(options.indent);
            encode_array(None, arr, &mut writer, 0, options);
            proof {
                assert(writer.lines_view() =~= spec_array_lines(None, arr@, 0, *options));
            }
            writer.to_string()
        },
        JsonValue::Object(m) => {
            let mut writer = LineWriter::new(options.indent);
            encode_object(m, &mut writer, 0, options);
            proof {
                assert(writer.lines_view() =~= spec_object_lines(m@, 0, *options));
            }
            writer.to_string()
        },
    }
}

} // verus!

//! The closed value model: primitives, arrays, objects, and the encoding
//! options.
//!
//! An object is stored as its canonical representation: a vector of
//! key/value pairs whose keys are strictly ascending in code-point order.
//! Well-formedness ([`JsonValue::wf`]) states that invariant for every
//! object in the tree; the construction functions establish it and the
//! encoder relies on it for canonical output.

use vstd::prelude::*;

verus! {

/// A leaf value: null, boolean, number, or string.
///
/// A number carries its canonical decimal token (for example `42` or
/// `9.99`), produced when the external value tree is normalized: integral
/// magnitudes below 10^15 are rendered without a decimal point, negative
/// zero is rewritten to zero, and non-finite numbers never reach this type
/// (they collapse to null).  The encoder emits the token verbatim.
#[derive(Debug, Clone, PartialEq)]
pub enum JsonPrimitive {
    String(String),
    Number(String),
    Boolean(bool),
    Null,
}

/// A JSON-like value: a primitive, an object, or an array.
///
/// The `Object` payload is the canonical pair list described in the module
/// documentation; use [`crate::object_from_pairs`] to build one from
/// arbitrary pairs.
#[derive(Debug, PartialEq)]
pub enum JsonValue {
    Primitive(JsonPrimitive),
    Object(Vec<(String, JsonValue)>),
    Array(Vec<JsonValue>),
}

/// Field and row separator for inline arrays, tabular rows, and header
/// field lists.
#[derive(Debug, Clone, Copy, PartialEq, Eq, Structural)]
pub enum Delimiter {
    Comma,
    Tab,
    Pipe,
}

/// The separator character of a delimiter.
pub open spec fn spec_delim_char(d: Delimiter) -> char {
    match d {
        Delimiter::Comma => ',',
        Delimiter::Tab => '\t',
        Delimiter::Pipe => '|',
    }
}

impl Delimiter {
    /// The separator as a one-character string.
    pub fn as_str(&self) -> (r: &'static str)
        ensures
            r@ =~= seq![spec_delim_char(*self)],
    {
        proof {
            reveal_strlit(",");
            reveal_strlit("\t");
            reveal_strlit("|");
        }
        match self {
            Delimiter::Comma => ",",
            Delimiter::Tab => "\t",
            Delimiter::Pipe => "|",
        }
    }

    /// Whether this is the default delimiter (comma), which array headers
    /// leave implicit.
    pub fn is_default(&self) -> (r: bool)
        ensures
            r == (*self == Delimiter::Comma),
    {
        matches!(self, Delimiter::Comma)
    }
}

impl Default for Delimiter {
    fn default() -> (r: Self)
        ensures
            r == Delimiter::Comma,
    {
        Delimiter::Comma
    }
}

/// Encoding options: spaces per indentation level, the active delimiter,
/// and an optional single-character prefix for bracketed array lengths.
#[derive(Debug, Clone)]
pub struct EncodeOptions {
    /// Number of spaces per indentation level.
    pub indent: usize,
    /// Delimiter for inline arrays, tabular rows, and header field lists.
    pub delimiter: Delimiter,
    /// Optional marker prepended to the length inside array brackets.
    pub length_marker: Option<char>,
}

impl Default for EncodeOptions {
    fn default() -> (r: Self)
        ensures
            r.indent == 2,
            r.delimiter == Delimiter::Comma,
            r.length_marker is None,
    {
        EncodeOptions { indent: 2, delimiter: Delimiter::Comma, length_marker: None }
    }
}

/// Strict lexicographic order on character sequences, by code point.
/// Matches the order in which object keys are canonicalized.
pub open spec fn lex_lt(a: Seq<char>, b: Seq<char>) -> bool
    decreases a.len(),
{
    if b.len() == 0 {
        false
    } else if a.len() == 0 {
        true
    } else if a[0] != b[0] {
        (a[0] as int) < (b[0] as int)
    } else {
        lex_lt(a.drop_first(), b.drop_first())
    }
}

pub proof fn lemma_lex_lt_irreflexive(a: Seq<char>)
    ensures
        !lex_lt(a, a),
    decreases a.len(),
{
    if a.len() > 0 {
        lemma_lex_lt_irreflexive(a.drop_first());
    }
}

/// Two sequences that are unordered in both directions are equal.
pub proof fn lemma_lex_lt_total(a: Seq<char>, b: Seq<char>)
    requires
        !lex_lt(a, b),
        !lex_lt(b, a),
    ensures
        a == b,
    decreases a.len(),
{
    if a.len() == 0 || b.len() == 0 {
        assert(a =~= b);
    } else {
        assert(a[0] == b[0]) by {
            assert(!((a[0] as int) < (b[0] as int)));
            assert(!((b[0] as int) < (a[0] as int)));
        }
        lemma_lex_lt_total(a.drop_first(), b.drop_first());
        assert forall|i: int| 0 <= i < a.len() implies a[i] == b[i] by {
            if i > 0 {
                assert(a[i] == a.drop_first()[i - 1]);
                assert(b[i] == b.drop_first()[i - 1]);
            }
        }
        assert(a =~= b);
    }
}

pub proof fn lemma_lex_lt_transitive(a: Seq<char>, b: Seq<char>, c: Seq<char>)
    requires
        lex_lt(a, b),
        lex_lt(b, c),
    ensures
        lex_lt(a, c),
    decreases a.len(),
{
    if a.len() > 0 && b.len() > 0 && c.len() > 0 && a[0] == b[0] && b[0] == c[0] {
        lemma_lex_lt_transitive(a.drop_first(), b.drop_first(), c.drop_first());
    }
}

/// Keys of an object's pair list are strictly ascending (hence unique).
pub open spec fn keys_sorted(pairs: Seq<(String, JsonValue)>) -> bool {
    forall|i: int, j: int|
        0 <= i < j < pairs.len() ==> lex_lt(pairs[i].0@, pairs[j].0@)
}

/// The mapping an object's pair list stands for; a later pair with the
/// same key overrides an earlier one.
pub open spec fn map_of_pairs(pairs: Seq<(String, JsonValue)>) -> Map<Seq<char>, JsonValue>
    decreases pairs.len(),
{
    if pairs.len() == 0 {
        Map::empty()
    } else {
        map_of_pairs(pairs.drop_last()).insert(pairs.last().0@, pairs.last().1)
    }
}

/// Whether some pair carries the given key.
pub open spec fn spec_has_key(pairs: Seq<(String, JsonValue)>, k: Seq<char>) -> bool {
    exists|i: int| 0 <= i < pairs.len() && #[trigger] pairs[i].0@ == k
}

/// The domain of the pair list's mapping is exactly its key set.
pub proof fn lemma_map_of_pairs_dom(pairs: Seq<(String, JsonValue)>, k: Seq<char>)
    ensures
        map_of_pairs(pairs).dom().contains(k) <==> spec_has_key(pairs, k),
    decreases pairs.len(),
{
    if pairs.len() > 0 {
        lemma_map_of_pairs_dom(pairs.drop_last(), k);
        if k == pairs.last().0@ {
            assert(pairs[pairs.len() - 1].0@ == k);
        } else {
            if spec_has_key(pairs.drop_last(), k) {
                let i = choose|i: int|
                    0 <= i < pairs.drop_last().len() && #[trigger] pairs.drop_last()[i].0@ == k;
                assert(pairs[i].0@ == k);
            }
            if spec_has_key(pairs, k) {
                let i = choose|i: int| 0 <= i < pairs.len() && #[trigger] pairs[i].0@ == k;
                assert(i < pairs.len() - 1);
                assert(pairs.drop_last()[i].0@ == k);
            }
        }
    }
}

/// All elements of an array are well-formed.
pub open spec fn spec_elems_wf(elems: Seq<JsonValue>) -> bool
    decreases elems,
{
    if elems.len() == 0 {
        true
    } else {
        elems.last().wf() && spec_elems_wf(elems.drop_last())
    }
}

/// All values in a pair list are well-formed.
pub open spec fn spec_values_wf(pairs: Seq<(String, JsonValue)>) -> bool
    decreases pairs,
{
    if pairs.len() == 0 {
        true
    } else {
        pairs.last().1.wf() && spec_values_wf(pairs.drop_last())
    }
}

impl JsonValue {
    /// Well-formedness of the model: every object in the tree is in
    /// canonical form (keys strictly ascending, so unique).
    pub open spec fn wf(self) -> bool
        decreases self,
    {
        match self {
            JsonValue::Primitive(_) => true,
            JsonValue::Array(elems) => spec_elems_wf(elems@),
            JsonValue::Object(pairs) => keys_sorted(pairs@) && spec_values_wf(pairs@),
        }
    }

    /// Nesting height of a value: zero for a primitive, one more than the
    /// deepest child for a container.  Bounds the indentation depth the
    /// encoder can reach.
    pub open spec fn height(self) -> nat
        decreases self,
    {
        match self {
            JsonValue::Primitive(_) => 0,
            JsonValue::Array(elems) => 1 + elems_height(elems@),
            JsonValue::Object(pairs) => 1 + values_height(pairs@),
        }
    }

    /// Computes [`Self::height`], saturating at `usize::MAX`; the result
    /// is exact whenever it stays below that bound, which lets a caller
    /// check the encoder's depth precondition on real data.
    pub fn nesting_height(&self) -> (r: usize)
        ensures
            r as nat <= self.height(),
            r < usize::MAX ==> r as nat == self.height(),
        decreases *self,
    {
        match self {
            JsonValue::Primitive(_) => 0,
            JsonValue::Array(elems) => {
                let mut m: usize = 0;
                let mut i: usize = 0;
                while i < elems.len()
                    invariant
                        self is Array,
                        elems@ == self->Array_0@,
                        i <= elems@.len(),
                        m as nat <= elems_height(elems@.take(i as int)),
                        m < usize::MAX ==> m as nat == elems_height(elems@.take(i as int)),
                    decreases elems@.len() - i,
                {
                    let h = elems[i].nesting_height();
                    if h > m {
                        m = h;
                    }
                    proof {
                        assert(elems@.take(i + 1).drop_last() =~= elems@.take(i as int));
                        assert(elems@.take(i + 1).last() == elems@[i as int]);
                    }
                    i = i + 1;
                }
                proof {
                    assert(elems@.take(elems@.len() as int) =~= elems@);
                }
                if m == usize::MAX {
                    m
                } else {
                    m + 1
                }
            },
            JsonValue::Object(pairs) => {
                let mut m: usize = 0;
                let mut i: usize = 0;
                while i < pairs.len()
                    invariant
                        self is Object,
                        pairs@ == self->Object_0@,
                        i <= pairs@.len(),
                        m as nat <= values_height(pairs@.take(i as int)),
                        m < usize::MAX ==> m as nat == values_height(pairs@.take(i as int)),
                    decreases pairs@.len() - i,
                {
                    let h = pairs[i].1.nesting_height();
                    if h > m {
                        m = h;
                    }
                    proof {
                        assert(pairs@.take(i + 1).drop_last() =~= pairs@.take(i as int));
                        assert(pairs@.take(i + 1).last() == pairs@[i as int]);
                    }
                    i = i + 1;
                }
                proof {
                    assert(pairs@.take(pairs@.len() as int) =~= pairs@);
                }
                if m == usize::MAX {
                    m
                } else {
                    m + 1
                }
            },
        }
    }
}

pub proof fn lemma_values_wf_index(pairs: Seq<(String, JsonValue)>, i: int)
    requires
        spec_values_wf(pairs),
        0 <= i < pairs.len(),
    ensures
        pairs[i].1.wf(),
    decreases pairs.len(),
{
    if i < pairs.len() - 1 {
        lemma_values_wf_index(pairs.drop_last(), i);
        assert(pairs.drop_last()[i] == pairs[i]);
    }
}

pub proof fn lemma_values_wf_intro(pairs: Seq<(String, JsonValue)>)
    requires
        forall|i: int| 0 <= i < pairs.len() ==> #[trigger] pairs[i].1.wf(),
    ensures
        spec_values_wf(pairs),
    decreases pairs.len(),
{
    if pairs.len() > 0 {
        assert forall|i: int| 0 <= i < pairs.drop_last().len() implies #[trigger] pairs.drop_last()[i].1.wf() by {
            assert(pairs.drop_last()[i] == pairs[i]);
        }
        lemma_values_wf_intro(pairs.drop_last());
        assert(pairs[pairs.len() - 1].1.wf());
    }
}

/// A well-formed object value has sorted keys and well-formed values.
pub proof fn lemma_wf_object(v: JsonValue)
    requires
        v is Object,
        v.wf(),
    ensures
        keys_sorted(v->Object_0@),
        spec_values_wf(v->Object_0@),
{
}

/// A value whose object payload is sorted with well-formed values is
/// well-formed.
pub proof fn lemma_object_wf(v: JsonValue)
    requires
        v is Object,
        keys_sorted(v->Object_0@),
        spec_values_wf(v->Object_0@),
    ensures
        v.wf(),
{
}

/// Largest height among the elements of an array.
pub open spec fn elems_height(elems: Seq<JsonValue>) -> nat
    decreases elems,
{
    if elems.len() == 0 {
        0
    } else {
        let rest = elems_height(elems.drop_last());
        let last = elems.last().height();
        if last > rest {
            last
        } else {
            rest
        }
    }
}

/// Largest height among the values of an object's pair list.
pub open spec fn values_height(pairs: Seq<(String, JsonValue)>) -> nat
    decreases pairs,
{
    if pairs.len() == 0 {
        0
    } else {
        let rest = values_height(pairs.drop_last());
        let last = pairs.last().1.height();
        if last > rest {
            last
        } else {
            rest
        }
    }
}

/// Every array element's height is bounded by the array's element height.
pub proof fn lemma_elems_height_ge(elems: Seq<JsonValue>, i: int)
    requires
        0 <= i < elems.len(),
    ensures
        elems[i].height() <= elems_height(elems),
    decreases elems.len(),
{
    if i == elems.len() - 1 {
        assert(elems.last() == elems[i]);
    } else {
        lemma_elems_height_ge(elems.drop_last(), i);
        assert(elems.drop_last()[i] == elems[i]);
    }
}

/// The larger of two naturals.
pub open spec fn nat_max(a: nat, b: nat) -> nat {
    if a > b {
        a
    } else {
        b
    }
}

/// A bound on every value's height bounds the pair list's value height.
pub proof fn lemma_values_height_le(pairs: Seq<(String, JsonValue)>, b: nat)
    requires
        forall|i: int| 0 <= i < pairs.len() ==> (#[trigger] pairs[i]).1.height() <= b,
    ensures
        values_height(pairs) <= b,
    decreases pairs.len(),
{
    if pairs.len() > 0 {
        assert forall|i: int| 0 <= i < pairs.drop_last().len() implies (#[trigger] pairs.drop_last()[i]).1.height() <= b by {
            assert(pairs.drop_last()[i] == pairs[i]);
        }
        lemma_values_height_le(pairs.drop_last(), b);
        assert(pairs[pairs.len() - 1].1.height() <= b);
    }
}

/// Every object value's height is bounded by the pair list's value height.
pub proof fn lemma_values_height_ge(pairs: Seq<(String, JsonValue)>, i: int)
    requires
        0 <= i < pairs.len(),
    ensures
        pairs[i].1.height() <= values_height(pairs),
    decreases pairs.len(),
{
    if i == pairs.len() - 1 {
        assert(pairs.last() == pairs[i]);
    } else {
        lemma_values_height_ge(pairs.drop_last(), i);
        assert(pairs.drop_last()[i] == pairs[i]);
    }
}

} // verus!

//! Shape predicates over values, and construction of canonical objects.
//!
//! [`object_from_pairs`] turns an arbitrary pair list into the canonical
//! object representation: keys strictly ascending, a later pair with the
//! same key overriding an earlier one (last write wins).

use vstd::prelude::*;

use crate::types::JsonValue;
use crate::types::keys_sorted;
use crate::types::lemma_lex_lt_irreflexive;
use crate::types::lemma_object_wf;
use crate::types::lemma_values_height_le;
use crate::types::lemma_values_height_ge;
use crate::types::lemma_values_wf_index;
use crate::types::lemma_values_wf_intro;
use crate::types::nat_max;
use crate::types::values_height;
use crate::types::lemma_lex_lt_total;
use crate::types::lemma_lex_lt_transitive;
use crate::types::lex_lt;
use crate::types::map_of_pairs;
use crate::types::spec_has_key;
use crate::types::spec_values_wf;

verus! {

// ---------------------------------------------------------------------------
// Shape predicates
// ---------------------------------------------------------------------------

/// Whether a value is a primitive.
pub fn is_primitive(value: &JsonValue) -> (r: bool)
    ensures
        r == (value is Primitive),
{
    matches!(value, JsonValue::Primitive(_))
}

/// Whether a value is an array.
pub fn is_array(value: &JsonValue) -> (r: bool)
    ensures
        r == (value is Array),
{
    matches!(value, JsonValue::Array(_))
}

/// Whether a value is an object.
pub fn is_object(value: &JsonValue) -> (r: bool)
    ensures
        r == (value is Object),
{
    matches!(value, JsonValue::Object(_))
}

/// Every element is a primitive.
pub open spec fn spec_all_primitives(elems: Seq<JsonValue>) -> bool {
    forall|i: int| 0 <= i < elems.len() ==> #[trigger] elems[i] is Primitive
}

/// Every element is an array.
pub open spec fn spec_all_arrays(elems: Seq<JsonValue>) -> bool {
    forall|i: int| 0 <= i < elems.len() ==> #[trigger] elems[i] is Array
}

/// Every element is an object.
pub open spec fn spec_all_objects(elems: Seq<JsonValue>) -> bool {
    forall|i: int| 0 <= i < elems.len() ==> #[trigger] elems[i] is Object
}

/// Whether an array contains only primitives.
pub fn is_array_of_primitives(arr: &Vec<JsonValue>) -> (r: bool)
    ensures
        r == spec_all_primitives(arr@),
{
    let mut i: usize = 0;
    while i < arr.len()
        invariant
            i <= arr@.len(),
            forall|j: int| 0 <= j < i ==> #[trigger] arr@[j] is Primitive,
        decreases arr@.len() - i,
    {
        if !is_primitive(&arr[i]) {
            return false;
        }
        i = i + 1;
    }
    true
}

/// Whether an array contains only arrays.
pub fn is_array_of_arrays(arr: &Vec<JsonValue>) -> (r: bool)
    ensures
        r == spec_all_arrays(arr@),
{
    let mut i: usize = 0;
    while i < arr.len()
        invariant
            i <= arr@.len(),
            forall|j: int| 0 <= j < i ==> #[trigger] arr@[j] is Array,
        decreases arr@.len() - i,
    {
        if !is_array(&arr[i]) {
            return false;
        }
        i = i + 1;
    }
    true
}

/// Whether an array contains only objects.
pub fn is_array_of_objects(arr: &Vec<JsonValue>) -> (r: bool)
    ensures
        r == spec_all_objects(arr@),
{
    let mut i: usize = 0;
    while i < arr.len()
        invariant
            i <= arr@.len(),
            forall|j: int| 0 <= j < i ==> #[trigger] arr@[j] is Object,
        decreases arr@.len() - i,
    {
        if !is_object(&arr[i]) {
            return false;
        }
        i = i + 1;
    }
    true
}

// ---------------------------------------------------------------------------
// Lexicographic comparison of strings
// ---------------------------------------------------------------------------

fn str_lt_from(a: &str, b: &str, i: usize) -> (r: bool)
    requires
        i <= a@.len(),
        i <= b@.len(),
    ensures
        r == lex_lt(a@.skip(i as int), b@.skip(i as int)),
    decreases a@.len() - i,
{
    let bn = b.unicode_len();
    if i >= bn {
        return false;
    }
    let an = a.unicode_len();
    if i >= an {
        return true;
    }
    let ca = a.get_char(i);
    let cb = b.get_char(i);
    proof {
        assert(a@.skip(i as int)[0] == a@[i as int]);
        assert(b@.skip(i as int)[0] == b@[i as int]);
    }
    if ca != cb {
        (ca as u32) < (cb as u32)
    } else {
        let r = str_lt_from(a, b, i + 1);
        proof {
            assert(a@.skip(i as int).drop_first() =~= a@.skip(i + 1));
            assert(b@.skip(i as int).drop_first() =~= b@.skip(i + 1));
        }
        r
    }
}

/// Lexicographic comparison by code point, matching [`lex_lt`].
pub fn str_lt(a: &str, b: &str) -> (r: bool)
    ensures
        r == lex_lt(a@, b@),
{
    let r = str_lt_from(a, b, 0);
    proof {
        assert(a@.skip(0) =~= a@);
        assert(b@.skip(0) =~= b@);
    }
    r
}

// ---------------------------------------------------------------------------
// Canonical object construction
// ---------------------------------------------------------------------------

proof fn lemma_map_insert_at(s: Seq<(String, JsonValue)>, i: int, p: (String, JsonValue))
    requires
        0 <= i <= s.len(),
        !spec_has_key(s, p.0@),
    ensures
        map_of_pairs(s.insert(i, p)) =~= map_of_pairs(s).insert(p.0@, p.1),
    decreases s.len(),
{
    let t = s.insert(i, p);
    if i == s.len() {
        assert(t.drop_last() =~= s);
        assert(t.last() == p);
    } else {
        assert(t.last() == s.last());
        assert(t.drop_last() =~= s.drop_last().insert(i, p));
        assert(!spec_has_key(s.drop_last(), p.0@)) by {
            if spec_has_key(s.drop_last(), p.0@) {
                let j = choose|j: int|
                    0 <= j < s.drop_last().len() && #[trigger] s.drop_last()[j].0@ == p.0@;
                assert(s[j].0@ == p.0@);
            }
        }
        lemma_map_insert_at(s.drop_last(), i, p);
        assert(s[s.len() - 1].0@ != p.0@);
        assert(map_of_pairs(s.drop_last()).insert(p.0@, p.1).insert(
            s.last().0@,
            s.last().1,
        ) =~= map_of_pairs(s.drop_last()).insert(s.last().0@, s.last().1).insert(p.0@, p.1));
    }
}

proof fn lemma_map_update_at(s: Seq<(String, JsonValue)>, i: int, p: (String, JsonValue))
    requires
        0 <= i < s.len(),
        s[i].0@ == p.0@,
        forall|j: int| 0 <= j < s.len() && j != i ==> #[trigger] s[j].0@ != p.0@,
    ensures
        map_of_pairs(s.update(i, p)) =~= map_of_pairs(s).insert(p.0@, p.1),
    decreases s.len(),
{
    let t = s.update(i, p);
    if i == s.len() - 1 {
        assert(t.drop_last() =~= s.drop_last());
        assert(t.last() == p);
        assert(map_of_pairs(s.drop_last()).insert(p.0@, p.1) =~= map_of_pairs(s.drop_last()).insert(
            s.last().0@,
            s.last().1,
        ).insert(p.0@, p.1));
    } else {
        assert(t.drop_last() =~= s.drop_last().update(i, p));
        assert(t.last() == s.last());
        assert(forall|j: int|
            0 <= j < s.drop_last().len() && j != i ==> #[trigger] s.drop_last()[j].0@ != p.0@);
        lemma_map_update_at(s.drop_last(), i, p);
        assert(s[s.len() - 1].0@ != p.0@);
        assert(map_of_pairs(s.drop_last()).insert(p.0@, p.1).insert(
            s.last().0@,
            s.last().1,
        ) =~= map_of_pairs(s.drop_last()).insert(s.last().0@, s.last().1).insert(p.0@, p.1));
    }
}

fn insert_pair(out: &mut Vec<(String, JsonValue)>, p: (String, JsonValue))
    requires
        keys_sorted(old(out)@),
    ensures
        keys_sorted(final(out)@),
        map_of_pairs(final(out)@) == map_of_pairs(old(out)@).insert(p.0@, p.1),
        spec_values_wf(old(out)@) && p.1.wf() ==> spec_values_wf(final(out)@),
        values_height(final(out)@) <= nat_max(values_height(old(out)@), p.1.height()),
{
    let ghost orig = out@;
    let ghost pg = p;
    let mut i: usize = 0;
    while i < out.len()
        invariant
            out@ == orig,
            orig == old(out)@,
            p == pg,
            keys_sorted(orig),
            i <= orig.len(),
            forall|j: int| 0 <= j < i ==> lex_lt(#[trigger] orig[j].0@, p.0@),
        decreases orig.len() - i,
    {
        if out[i].0 == p.0 {
            // Same key: replace in place; later writes win.
            proof {
                assert forall|j: int| 0 <= j < orig.len() && j != i implies #[trigger] orig[j].0@
                    != p.0@ by {
                    if orig[j].0@ == p.0@ {
                        if j < i {
                            lemma_lex_lt_irreflexive(p.0@);
                        } else {
                            assert(lex_lt(orig[i as int].0@, orig[j].0@));
                            lemma_lex_lt_irreflexive(p.0@);
                        }
                    }
                }
                lemma_map_update_at(orig, i as int, pg);
            }
            out.remove(i);
            out.insert(i, p);
            proof {
                assert(out@ =~= orig.update(i as int, pg));
                let t = orig.update(i as int, pg);
                assert(t[i as int].0@ == orig[i as int].0@);
                assert forall|a: int, b: int| 0 <= a < b < t.len() implies lex_lt(
                    #[trigger] t[a].0@,
                    #[trigger] t[b].0@,
                ) by {
                    assert(t[a].0@ == orig[a].0@);
                    assert(t[b].0@ == orig[b].0@);
                }
                if spec_values_wf(orig) && pg.1.wf() {
                    assert forall|j: int| 0 <= j < t.len() implies #[trigger] t[j].1.wf() by {
                        if j != i {
                            assert(t[j] == orig[j]);
                            lemma_values_wf_index(orig, j);
                        }
                    }
                    lemma_values_wf_intro(t);
                }
                assert forall|j: int| 0 <= j < t.len() implies (#[trigger] t[j]).1.height()
                    <= nat_max(values_height(orig), pg.1.height()) by {
                    if j != i {
                        assert(t[j] == orig[j]);
                        lemma_values_height_ge(orig, j);
                    }
                }
                lemma_values_height_le(t, nat_max(values_height(orig), pg.1.height()));
            }
            return ;
        }
        if str_lt(p.0.as_str(), out[i].0.as_str()) {
            // Strictly before the current key: insert here.
            proof {
                assert(!spec_has_key(orig, p.0@)) by {
                    if spec_has_key(orig, p.0@) {
                        let j = choose|j: int|
                            0 <= j < orig.len() && #[trigger] orig[j].0@ == p.0@;
                        if j < i {
                            lemma_lex_lt_irreflexive(p.0@);
                        } else if j == i {
                            lemma_lex_lt_irreflexive(p.0@);
                        } else {
                            // orig[i] < orig[j] == p.0 and p.0 < orig[i]
                            lemma_lex_lt_transitive(p.0@, orig[i as int].0@, orig[j].0@);
                            lemma_lex_lt_irreflexive(p.0@);
                        }
                    }
                }
                lemma_map_insert_at(orig, i as int, pg);
                assert forall|a: int, b: int|
                    0 <= a < b < orig.insert(i as int, pg).len() implies lex_lt(
                    #[trigger] orig.insert(i as int, pg)[a].0@,
                    #[trigger] orig.insert(i as int, pg)[b].0@,
                ) by {
                    let t = orig.insert(i as int, pg);
                    if b < i {
                    } else if a == i {
                        // t[a] == p; t[b] == orig[b-1], i <= b-1
                        if b - 1 > i {
                            lemma_lex_lt_transitive(p.0@, orig[i as int].0@, orig[b - 1].0@);
                        }
                    } else if b == i {
                        // t[a] == orig[a], a < i
                    } else if a < i {
                        // b > i: t[b] == orig[b-1], b-1 >= i > a
                    } else {
                        // i < a < b: orig indices a-1 < b-1
                    }
                }
            }
            out.insert(i, p);
            proof {
                let t = orig.insert(i as int, pg);
                assert(out@ == t);
                if spec_values_wf(orig) && pg.1.wf() {
                    assert forall|j: int| 0 <= j < t.len() implies #[trigger] t[j].1.wf() by {
                        if j < i {
                            assert(t[j] == orig[j]);
                            lemma_values_wf_index(orig, j);
                        } else if j > i {
                            assert(t[j] == orig[j - 1]);
                            lemma_values_wf_index(orig, j - 1);
                        }
                    }
                    lemma_values_wf_intro(t);
                }
                assert forall|j: int| 0 <= j < t.len() implies (#[trigger] t[j]).1.height()
                    <= nat_max(values_height(orig), pg.1.height()) by {
                    if j < i {
                        assert(t[j] == orig[j]);
                        lemma_values_height_ge(orig, j);
                    } else if j > i {
                        assert(t[j] == orig[j - 1]);
                        lemma_values_height_ge(orig, j - 1);
                    }
                }
                lemma_values_height_le(t, nat_max(values_height(orig), pg.1.height()));
            }
            return ;
        }
        proof {
            // Neither equal nor less: the current key precedes the new one.
            if !lex_lt(orig[i as int].0@, p.0@) {
                lemma_lex_lt_total(p.0@, orig[i as int].0@);
                assert(false);
            }
        }
        i = i + 1;
    }
    proof {
        assert(!spec_has_key(orig, p.0@)) by {
            if spec_has_key(orig, p.0@) {
                let j = choose|j: int| 0 <= j < orig.len() && #[trigger] orig[j].0@ == p.0@;
                lemma_lex_lt_irreflexive(p.0@);
            }
        }
        lemma_map_insert_at(orig, orig.len() as int, pg);
    }
    out.push(p);
    proof {
        let t = orig.insert(orig.len() as int, pg);
        assert(out@ =~= t);
        assert forall|a: int, b: int| 0 <= a < b < t.len() implies lex_lt(
            #[trigger] t[a].0@,
            #[trigger] t[b].0@,
        ) by {
            if b < t.len() - 1 {
                assert(t[a] == orig[a]);
                assert(t[b] == orig[b]);
            } else {
                assert(t[a] == orig[a]);
                assert(t[b] == pg);
            }
        }
        if spec_values_wf(orig) && pg.1.wf() {
            assert forall|j: int| 0 <= j < t.len() implies #[trigger] t[j].1.wf() by {
                if j < t.len() - 1 {
                    assert(t[j] == orig[j]);
                    lemma_values_wf_index(orig, j);
                }
            }
            lemma_values_wf_intro(t);
        }
        assert forall|j: int| 0 <= j < t.len() implies (#[trigger] t[j]).1.height() <= nat_max(
            values_height(orig),
            pg.1.height(),
        ) by {
            if j < t.len() - 1 {
                assert(t[j] == orig[j]);
                lemma_values_height_ge(orig, j);
            }
        }
        lemma_values_height_le(t, nat_max(values_height(orig), pg.1.height()));
    }
}

/// Builds the canonical object for a pair list: ascending unique keys,
/// with a later pair overriding an earlier one of the same key.
pub fn object_from_pairs(pairs: Vec<(String, JsonValue)>) -> (r: JsonValue)
    ensures
        r is Object,
        keys_sorted(r->Object_0@),
        map_of_pairs(r->Object_0@) == map_of_pairs(pairs@),
        spec_values_wf(pairs@) ==> r.wf(),
        r.height() <= 1 + values_height(pairs@),
{
    let ghost orig = pairs@;
    let mut src = pairs;
    let mut out: Vec<(String, JsonValue)> = Vec::new();
    let ghost mut done: int = 0;
    while src.len() > 0
        invariant
            0 <= done <= orig.len(),
            src@ == orig.skip(done),
            keys_sorted(out@),
            map_of_pairs(out@) == map_of_pairs(orig.take(done)),
            spec_values_wf(orig) ==> spec_values_wf(out@),
            values_height(out@) <= values_height(orig),
        decreases src@.len(),
    {
        let p = src.remove(0);
        proof {
            assert(p == orig[done]);
            if spec_values_wf(orig) {
                lemma_values_wf_index(orig, done);
            }
            lemma_values_height_ge(orig, done);
        }
        insert_pair(&mut out, p);
        proof {
            assert(orig.take(done + 1).drop_last() =~= orig.take(done));
            assert(orig.take(done + 1).last() == orig[done]);
            assert(src@ =~= orig.skip(done + 1));
            done = done + 1;
        }
    }
    proof {
        assert(orig.take(done) =~= orig);
        if spec_values_wf(orig) {
            lemma_object_wf(JsonValue::Object(out));
        }
    }
    JsonValue::Object(out)
}

} // verus!

use vstd::prelude::*;
use crate::error::Error;
use crate::flat::{apply_writes, Write};
use crate::path::{index_segment, key_segment, root_path};
use crate::value::{Number, Value};

verus! {

/// A single write at the current path.
pub open spec fn here(n: Number) -> Seq<Write> {
    seq![(Seq::<char>::empty(), n)]
}

/// The writes `w`, with `p` put in front of every path.
pub open spec fn under(p: Seq<char>, w: Seq<Write>) -> Seq<Write> {
    w.map_values(|x: Write| (p + x.0, x.1))
}

/// The number written for a variant's discriminant.
pub open spec fn discriminant(d: u32) -> Number {
    Number::Unsigned(d as u64)
}

/// The path segment that a map key becomes: the text of a text key, looked
/// for through single-payload wrappers; any other key is refused.
pub open spec fn key_of(v: Value) -> Result<Seq<char>, Error>
    decreases v,
{
    match v {
        Value::Str(s) => Ok(s@),
        Value::NewtypeStruct(b) => key_of(*b),
        _ => Err(Error::KeyNotString),
    }
}

/// The writes that flattening `v` performs, in order, with paths relative to
/// the position of `v`; or the first error met, in traversal order.
///
/// A variant writes its discriminant at its own path, then its payload
/// below it: `[i]` for positional fields, `.name` for named ones. Distinct
/// sequences keep distinct element counters, so a nested sequence does not
/// disturb the indices of the one around it.
pub open spec fn flatten(v: Value) -> Result<Seq<Write>, Error>
    decreases v,
{
    match v {
        Value::Bool(b) => Ok(here(Number::Unsigned(if b { 1 } else { 0 }))),
        Value::Signed(x) => Ok(here(Number::Signed(x))),
        Value::Unsigned(x) => Ok(here(Number::Unsigned(x))),
        Value::Float(x) => Ok(here(Number::Float(x))),
        Value::Char(_) => Err(Error::Unsupported),
        Value::Str(_) => Err(Error::Unsupported),
        Value::Bytes(_) => Err(Error::Unsupported),
        Value::Absent => Ok(here(Number::Nan)),
        Value::Present(b) => flatten(*b),
        Value::Unit => Ok(here(Number::Nan)),
        Value::UnitStruct => Ok(here(Number::Nan)),
        Value::UnitVariant(d) => Ok(here(discriminant(d))),
        Value::NewtypeStruct(b) => flatten(*b),
        Value::NewtypeVariant(d, b) => match flatten(*b) {
            Ok(w) => Ok(here(discriminant(d)) + under(index_segment(0), w)),
            Err(e) => Err(e),
        },
        Value::Sequence(items) => flatten_items(items@),
        Value::Tuple(items) => flatten_items(items@),
        Value::TupleStruct(items) => flatten_items(items@),
        Value::TupleVariant(d, items) => match flatten_items(items@) {
            Ok(w) => Ok(here(discriminant(d)) + w),
            Err(e) => Err(e),
        },
        Value::Mapping(entries) => flatten_entries(entries@),
        Value::Struct(fields) => flatten_fields(fields@),
        Value::StructVariant(d, fields) => match flatten_fields(fields@) {
            Ok(w) => Ok(here(discriminant(d)) + w),
            Err(e) => Err(e),
        },
        Value::Failed(m) => Err(Error::Message(m)),
    }
}

/// Flattening the elements of a sequence: element `i` under `[i]`.
pub open spec fn flatten_items(s: Seq<Value>) -> Result<Seq<Write>, Error>
    decreases s,
{
    if s.len() == 0 {
        Ok(Seq::empty())
    } else {
        let n = s.len() - 1;
        match flatten_items(s.subrange(0, n)) {
            Err(e) => Err(e),
            Ok(w) => match flatten(s[n]) {
                Err(e) => Err(e),
                Ok(x) => Ok(w + under(index_segment(n as nat), x)),
            },
        }
    }
}

/// Flattening the entries of a map: each value under `.key`.
pub open spec fn flatten_entries(s: Seq<(Value, Value)>) -> Result<Seq<Write>, Error>
    decreases s,
{
    if s.len() == 0 {
        Ok(Seq::empty())
    } else {
        let n = s.len() - 1;
        match flatten_entries(s.subrange(0, n)) {
            Err(e) => Err(e),
            Ok(w) => match key_of(s[n].0) {
                Err(e) => Err(e),
                Ok(k) => match flatten(s[n].1) {
                    Err(e) => Err(e),
                    Ok(x) => Ok(w + under(key_segment(k), x)),
                },
            },
        }
    }
}

/// Flattening the fields of a record: each value under `.name`.
pub open spec fn flatten_fields(s: Seq<(String, Value)>) -> Result<Seq<Write>, Error>
    decreases s,
{
    if s.len() == 0 {
        Ok(Seq::empty())
    } else {
        let n = s.len() - 1;
        match flatten_fields(s.subrange(0, n)) {
            Err(e) => Err(e),
            Ok(w) => match flatten(s[n].1) {
                Err(e) => Err(e),
                Ok(x) => Ok(w + under(key_segment(s[n].0@), x)),
            },
        }
    }
}

/// The flat map of `v`: its writes performed from the root `$`.
pub open spec fn flat_map(v: Value) -> Result<Map<Seq<char>, Number>, Error> {
    match flatten(v) {
        Ok(w) => Ok(apply_writes(under(root_path(), w))),
        Err(e) => Err(e),
    }
}

pub proof fn lemma_under_concat(p: Seq<char>, a: Seq<Write>, b: Seq<Write>)
    ensures
        under(p, a + b) == under(p, a) + under(p, b),
{
    assert(under(p, a + b) =~= under(p, a) + under(p, b));
}

pub proof fn lemma_under_under(p: Seq<char>, q: Seq<char>, w: Seq<Write>)
    ensures
        under(p, under(q, w)) == under(p + q, w),
{
    assert forall|i: int| 0 <= i < w.len() implies #[trigger] under(p, under(q, w))[i] == under(
        p + q,
        w,
    )[i] by {
        assert(p + (q + w[i].0) =~= (p + q) + w[i].0);
    }
    assert(under(p, under(q, w)) =~= under(p + q, w));
}

/// The step of a compound: the writes so far, then a child's writes under
/// `seg`, all relative to `p`.
pub proof fn lemma_under_step(p: Seq<char>, w: Seq<Write>, seg: Seq<char>, x: Seq<Write>)
    ensures
        under(p, w + under(seg, x)) == under(p, w) + under(p + seg, x),
{
    lemma_under_concat(p, w, under(seg, x));
    lemma_under_under(p, seg, x);
}

pub proof fn lemma_items_error(s: Seq<Value>, k: int)
    requires
        0 <= k <= s.len(),
        flatten_items(s.subrange(0, k)) is Err,
    ensures
        flatten_items(s) == flatten_items(s.subrange(0, k)),
    decreases s.len() - k,
{
    if k < s.len() {
        let t = s.subrange(0, k + 1);
        assert(t.subrange(0, k) =~= s.subrange(0, k));
        lemma_items_error(s, k + 1);
    } else {
        assert(s.subrange(0, k) =~= s);
    }
}

pub proof fn lemma_entries_error(s: Seq<(Value, Value)>, k: int)
    requires
        0 <= k <= s.len(),
        flatten_entries(s.subrange(0, k)) is Err,
    ensures
        flatten_entries(s) == flatten_entries(s.subrange(0, k)),
    decreases s.len() - k,
{
    if k < s.len() {
        let t = s.subrange(0, k + 1);
        assert(t.subrange(0, k) =~= s.subrange(0, k));
        lemma_entries_error(s, k + 1);
    } else {
        assert(s.subrange(0, k) =~= s);
    }
}

pub proof fn lemma_fields_error(s: Seq<(String, Value)>, k: int)
    requires
        0 <= k <= s.len(),
        flatten_fields(s.subrange(0, k)) is Err,
    ensures
        flatten_fields(s) == flatten_fields(s.subrange(0, k)),
    decreases s.len() - k,
{
    if k < s.len() {
        let t = s.subrange(0, k + 1);
        assert(t.subrange(0, k) =~= s.subrange(0, k));
        lemma_fields_error(s, k + 1);
    } else {
        assert(s.subrange(0, k) =~= s);
    }
}

} // verus!

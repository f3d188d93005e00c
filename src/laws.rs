use vstd::prelude::*;
use crate::error::Error;
use crate::flat::{apply_writes, Write};
use crate::flat::FlatMap;
use crate::model::{
    flat_map, flatten, flatten_entries, flatten_fields, flatten_items, key_of,
    lemma_entries_error, lemma_under_concat, lemma_under_under, under,
};
use crate::ser::flattens_to;
use crate::path::{key_segment, root_path};
use crate::value::{Number, Value};

verus! {

/// `k` begins with `p`.
pub open spec fn starts_with(k: Seq<char>, p: Seq<char>) -> bool {
    k.len() >= p.len() && k.subrange(0, p.len() as int) == p
}

/// What follows the first `n` characters of `k`.
pub open spec fn rest(k: Seq<char>, n: nat) -> Seq<char> {
    k.subrange(n as int, k.len() as int)
}

/// The map `m` with the prefix `from` of its paths replaced by `to`: `to + r`
/// holds what `from + r` holds in `m`.
pub open spec fn moved(m: Map<Seq<char>, Number>, from: Seq<char>, to: Seq<char>) -> Map<
    Seq<char>,
    Number,
> {
    Map::new(
        |k: Seq<char>| starts_with(k, to) && m.contains_key(from + rest(k, to.len())),
        |k: Seq<char>| m[from + rest(k, to.len())],
    )
}

/// The map `m` with `p` put in front of every path.
pub open spec fn shifted(m: Map<Seq<char>, Number>, p: Seq<char>) -> Map<Seq<char>, Number> {
    Map::new(
        |k: Seq<char>| starts_with(k, p) && m.contains_key(rest(k, p.len())),
        |k: Seq<char>| m[rest(k, p.len())],
    )
}

proof fn lemma_split(p: Seq<char>, r: Seq<char>)
    ensures
        starts_with(p + r, p),
        rest(p + r, p.len()) == r,
{
    assert((p + r).subrange(0, p.len() as int) =~= p);
    assert(rest(p + r, p.len()) =~= r);
}

proof fn lemma_join(k: Seq<char>, p: Seq<char>)
    requires
        starts_with(k, p),
    ensures
        k == p + rest(k, p.len()),
{
    assert(k =~= p + rest(k, p.len()));
}

proof fn lemma_apply_finite(w: Seq<Write>)
    ensures
        apply_writes(w).dom().finite(),
    decreases w.len(),
{
    if w.len() > 0 {
        lemma_apply_finite(w.drop_last());
    }
}

/// Performing writes below `p` gives the map of the same writes performed
/// at the top, with `p` put in front of every path.
proof fn lemma_apply_under(p: Seq<char>, w: Seq<Write>)
    ensures
        apply_writes(under(p, w)) == shifted(apply_writes(w), p),
    decreases w.len(),
{
    if w.len() == 0 {
        assert(under(p, w) =~= Seq::<Write>::empty());
        assert(apply_writes(under(p, w)) =~= shifted(apply_writes(w), p));
    } else {
        let u = under(p, w);
        let x = w.last();
        assert(u.drop_last() =~= under(p, w.drop_last()));
        lemma_apply_under(p, w.drop_last());
        let a = apply_writes(w.drop_last());
        let lhs = shifted(a, p).insert(p + x.0, x.1);
        let rhs = shifted(a.insert(x.0, x.1), p);
        lemma_split(p, x.0);
        assert forall|k: Seq<char>| lhs.contains_key(k) <==> rhs.contains_key(k) by {
            if starts_with(k, p) {
                lemma_join(k, p);
            }
        }
        assert forall|k: Seq<char>| lhs.contains_key(k) implies lhs[k] == rhs[k] by {
            if starts_with(k, p) {
                lemma_join(k, p);
            }
        }
        assert(lhs =~= rhs);
    }
}

proof fn lemma_shifted_len(p: Seq<char>, w: Seq<Write>)
    ensures
        apply_writes(under(p, w)).dom().len() == apply_writes(w).dom().len(),
    decreases w.len(),
{
    lemma_apply_under(p, w);
    if w.len() > 0 {
        let x = w.last();
        let a = apply_writes(w.drop_last());
        lemma_apply_under(p, w.drop_last());
        lemma_shifted_len(p, w.drop_last());
        lemma_apply_finite(w.drop_last());
        lemma_apply_finite(under(p, w.drop_last()));
        assert(under(p, w).drop_last() =~= under(p, w.drop_last()));
        lemma_split(p, x.0);
        assert(shifted(a, p).contains_key(p + x.0) == a.contains_key(x.0));
    }
}

proof fn lemma_moved_shifted(m: Map<Seq<char>, Number>, q: Seq<char>, p: Seq<char>)
    ensures
        moved(shifted(m, q), q, p) == shifted(m, p),
{
    let lhs = moved(shifted(m, q), q, p);
    let rhs = shifted(m, p);
    assert forall|k: Seq<char>| lhs.contains_key(k) <==> rhs.contains_key(k) by {
        lemma_split(q, rest(k, p.len()));
    }
    assert forall|k: Seq<char>| lhs.contains_key(k) implies lhs[k] == rhs[k] by {
        lemma_split(q, rest(k, p.len()));
    }
    assert(lhs =~= rhs);
}

/// The writes `w` performed below `p` give the map of the same writes
/// performed below `q`, moved from `q` to `p`.
pub proof fn lemma_relocate(w: Seq<Write>, q: Seq<char>, p: Seq<char>)
    ensures
        apply_writes(under(p, w)) == moved(apply_writes(under(q, w)), q, p),
        apply_writes(under(p, w)).dom().finite(),
        apply_writes(under(p, w)).dom().len() == apply_writes(under(q, w)).dom().len(),
{
    lemma_apply_under(p, w);
    lemma_apply_under(q, w);
    lemma_moved_shifted(apply_writes(w), q, p);
    lemma_shifted_len(p, w);
    lemma_shifted_len(q, w);
    lemma_apply_finite(under(p, w));
}

proof fn lemma_apply_concat(a: Seq<Write>, b: Seq<Write>)
    ensures
        apply_writes(a + b) == apply_writes(a).union_prefer_right(apply_writes(b)),
    decreases b.len(),
{
    if b.len() == 0 {
        assert(a + b =~= a);
        assert(apply_writes(a) =~= apply_writes(a).union_prefer_right(apply_writes(b)));
    } else {
        lemma_apply_concat(a, b.drop_last());
        assert((a + b).drop_last() =~= a + b.drop_last());
        assert(apply_writes(a + b) =~= apply_writes(a).union_prefer_right(apply_writes(b)));
    }
}

/// The path of field `name` of the root: `$.name`.
pub open spec fn field_path(name: Seq<char>) -> Seq<char> {
    root_path() + key_segment(name)
}

/// Nesting: a record with two fields `a` and `b` flattens to the flat map of
/// its `a` value with `$` replaced by `$.a` in every path, together with the
/// flat map of its `b` value with `$` replaced by `$.b`. No path of the one
/// is a path of the other, so the entry counts add up. Where a field fails,
/// the record fails with the error of the first failing field.
pub proof fn law_nesting(outer: Value)
    requires
        outer matches Value::Struct(fields) && fields@.len() == 2 && fields@[0].0@ == seq!['a']
            && fields@[1].0@ == seq!['b'],
    ensures
        ({
            let x = outer->Struct_0@[0].1;
            let y = outer->Struct_0@[1].1;
            match (flat_map(x), flat_map(y)) {
                (Ok(ma), Ok(mb)) => flat_map(outer) matches Ok(m) && m == moved(
                    ma,
                    root_path(),
                    field_path(seq!['a']),
                ).union_prefer_right(moved(mb, root_path(), field_path(seq!['b'])))
                    && m.dom().len() == ma.dom().len() + mb.dom().len(),
                (Err(e), _) => flat_map(outer) == Err::<Map<Seq<char>, Number>, Error>(e),
                (Ok(_), Err(e)) => flat_map(outer) == Err::<Map<Seq<char>, Number>, Error>(e),
            }
        }),
{
    let f = outer->Struct_0@;
    let x = f[0].1;
    let y = f[1].1;
    let pa = key_segment(seq!['a']);
    let pb = key_segment(seq!['b']);
    assert(f.subrange(0, 1).subrange(0, 0) =~= Seq::<(String, Value)>::empty());
    assert(f.subrange(0, 2) =~= f);
    assert(f.subrange(0, 1)[0] == f[0]);
    reveal_with_fuel(flatten_fields, 3);
    if let (Ok(wx), Ok(wy)) = (flatten(x), flatten(y)) {
        let root = root_path();
        let w = Seq::<Write>::empty() + under(pa, wx) + under(pb, wy);
        let f1 = f.subrange(0, 1);
        assert(flatten_fields(f1.subrange(0, 0)) == Ok::<Seq<Write>, Error>(Seq::empty()));
        assert(flatten_fields(f1) == Ok::<Seq<Write>, Error>(Seq::<Write>::empty() + under(pa, wx)));
        assert(flatten_fields(f) == Ok::<Seq<Write>, Error>(w));
        assert(flatten(outer) == Ok::<Seq<Write>, Error>(w));
        assert(Seq::<Write>::empty() + under(pa, wx) =~= under(pa, wx));
        lemma_under_concat(root, under(pa, wx), under(pb, wy));
        lemma_under_under(root, pa, wx);
        lemma_under_under(root, pb, wy);
        let a = under(root + pa, wx);
        let b = under(root + pb, wy);
        lemma_apply_concat(a, b);
        lemma_relocate(wx, root, root + pa);
        lemma_relocate(wy, root, root + pb);
        let da = apply_writes(a).dom();
        let db = apply_writes(b).dom();
        assert(root + pa =~= seq!['$', '.', 'a']);
        assert(root + pb =~= seq!['$', '.', 'b']);
        assert forall|k: Seq<char>| da.contains(k) implies !db.contains(k) by {
            assert(k.subrange(0, 3)[2] == 'a');
            if db.contains(k) {
                assert(k.subrange(0, 3)[2] == 'b');
            }
        }
        assert(da.disjoint(db));
        vstd::set_lib::lemma_set_disjoint_lens(da, db);
        assert(apply_writes(a + b).dom() =~= da + db);
    }
}

/// A key that is not text is refused with `KeyNotString`.
pub proof fn lemma_key_error(k: Value)
    ensures
        key_of(k) is Err ==> key_of(k) == Err::<Seq<char>, Error>(Error::KeyNotString),
    decreases k,
{
    if let Value::NewtypeStruct(b) = k {
        lemma_key_error(*b);
    }
}

/// A map fails with `KeyNotString` at its first entry whose key is not text,
/// when the entries before it flatten.
pub proof fn law_key_not_string(v: Value, i: int)
    requires
        v matches Value::Mapping(entries) && 0 <= i < entries@.len() && flatten_entries(
            entries@.subrange(0, i),
        ) is Ok && key_of(entries@[i].0) is Err,
    ensures
        flat_map(v) == Err::<Map<Seq<char>, Number>, Error>(Error::KeyNotString),
{
    let s = v->Mapping_0@;
    lemma_key_error(s[i].0);
    assert(s.subrange(0, i + 1).subrange(0, i) =~= s.subrange(0, i));
    assert(s.subrange(0, i + 1)[i] == s[i]);
    lemma_entries_error(s, i + 1);
}

/// A text key is a path segment as it stands, with no escaping: a map of one
/// entry with key `k` flattens to the flat map of its value with `$`
/// replaced by `$.` followed by the text of `k`, whatever that text holds.
pub proof fn law_text_key(v: Value)
    requires
        v matches Value::Mapping(entries) && entries@.len() == 1 && entries@[0].0 is Str,
    ensures
        ({
            let k = v->Mapping_0@[0].0->Str_0@;
            let x = v->Mapping_0@[0].1;
            match flat_map(x) {
                Ok(m) => flat_map(v) == Ok::<Map<Seq<char>, Number>, Error>(
                    moved(m, root_path(), field_path(k)),
                ),
                Err(e) => flat_map(v) == Err::<Map<Seq<char>, Number>, Error>(e),
            }
        }),
{
    let s = v->Mapping_0@;
    let k = s[0].0->Str_0@;
    assert(s.subrange(0, 1) =~= s);
    assert(s.subrange(0, 0) =~= Seq::<(Value, Value)>::empty());
    if let Ok(w) = flatten(s[0].1) {
        let root = root_path();
        reveal_with_fuel(flatten_entries, 2);
        assert(flatten_entries(s.subrange(0, 0)) == Ok::<Seq<Write>, Error>(Seq::empty()));
        assert(flatten_entries(s) == Ok::<Seq<Write>, Error>(Seq::<Write>::empty() + under(key_segment(k), w)));
        assert(flatten(v) == Ok::<Seq<Write>, Error>(Seq::<Write>::empty() + under(key_segment(k), w)));
        assert(Seq::<Write>::empty() + under(key_segment(k), w) =~= under(key_segment(k), w));
        lemma_under_under(root, key_segment(k), w);
        lemma_relocate(w, root, field_path(k));
    }
}

/// Every leaf of `v` is a boolean, a number, unit, an absent optional or
/// text (a character, a string, bytes); every map key is text; and no
/// failure is reported anywhere in it.
pub open spec fn plain(v: Value) -> bool
    decreases v,
{
    match v {
        Value::Failed(_) => false,
        Value::Present(b) => plain(*b),
        Value::NewtypeStruct(b) => plain(*b),
        Value::NewtypeVariant(_, b) => plain(*b),
        Value::Sequence(items) => plain_items(items@),
        Value::Tuple(items) => plain_items(items@),
        Value::TupleStruct(items) => plain_items(items@),
        Value::TupleVariant(_, items) => plain_items(items@),
        Value::Mapping(entries) => plain_entries(entries@),
        Value::Struct(fields) => plain_fields(fields@),
        Value::StructVariant(_, fields) => plain_fields(fields@),
        _ => true,
    }
}

pub open spec fn plain_items(s: Seq<Value>) -> bool
    decreases s,
{
    s.len() > 0 ==> plain_items(s.subrange(0, s.len() - 1)) && plain(s[s.len() - 1])
}

pub open spec fn plain_entries(s: Seq<(Value, Value)>) -> bool
    decreases s,
{
    s.len() > 0 ==> plain_entries(s.subrange(0, s.len() - 1)) && key_of(s[s.len() - 1].0) is Ok
        && plain(s[s.len() - 1].1)
}

pub open spec fn plain_fields(s: Seq<(String, Value)>) -> bool
    decreases s,
{
    s.len() > 0 ==> plain_fields(s.subrange(0, s.len() - 1)) && plain(s[s.len() - 1].1)
}

/// `v` holds a character, string or bytes leaf somewhere (map keys aside).
pub open spec fn has_text(v: Value) -> bool
    decreases v,
{
    match v {
        Value::Char(_) => true,
        Value::Str(_) => true,
        Value::Bytes(_) => true,
        Value::Present(b) => has_text(*b),
        Value::NewtypeStruct(b) => has_text(*b),
        Value::NewtypeVariant(_, b) => has_text(*b),
        Value::Sequence(items) => has_text_items(items@),
        Value::Tuple(items) => has_text_items(items@),
        Value::TupleStruct(items) => has_text_items(items@),
        Value::TupleVariant(_, items) => has_text_items(items@),
        Value::Mapping(entries) => has_text_entries(entries@),
        Value::Struct(fields) => has_text_fields(fields@),
        Value::StructVariant(_, fields) => has_text_fields(fields@),
        _ => false,
    }
}

pub open spec fn has_text_items(s: Seq<Value>) -> bool
    decreases s,
{
    s.len() > 0 && (has_text_items(s.subrange(0, s.len() - 1)) || has_text(s[s.len() - 1]))
}

pub open spec fn has_text_entries(s: Seq<(Value, Value)>) -> bool
    decreases s,
{
    s.len() > 0 && (has_text_entries(s.subrange(0, s.len() - 1)) || has_text(s[s.len() - 1].1))
}

pub open spec fn has_text_fields(s: Seq<(String, Value)>) -> bool
    decreases s,
{
    s.len() > 0 && (has_text_fields(s.subrange(0, s.len() - 1)) || has_text(s[s.len() - 1].1))
}

/// `r` succeeds exactly when `text` is false, and fails only with
/// `Unsupported`.
pub open spec fn ok_unless_text(r: Result<Seq<Write>, Error>, text: bool) -> bool {
    &&& (r is Ok <==> !text)
    &&& (r is Err ==> r == Err::<Seq<Write>, Error>(Error::Unsupported))
}

proof fn lemma_plain(v: Value)
    requires
        plain(v),
    ensures
        ok_unless_text(flatten(v), has_text(v)),
    decreases v,
{
    match v {
        Value::Present(b) => lemma_plain(*b),
        Value::NewtypeStruct(b) => lemma_plain(*b),
        Value::NewtypeVariant(_, b) => lemma_plain(*b),
        Value::Sequence(items) => lemma_plain_items(items@),
        Value::Tuple(items) => lemma_plain_items(items@),
        Value::TupleStruct(items) => lemma_plain_items(items@),
        Value::TupleVariant(_, items) => lemma_plain_items(items@),
        Value::Mapping(entries) => lemma_plain_entries(entries@),
        Value::Struct(fields) => lemma_plain_fields(fields@),
        Value::StructVariant(_, fields) => lemma_plain_fields(fields@),
        _ => {},
    }
}

proof fn lemma_plain_items(s: Seq<Value>)
    requires
        plain_items(s),
    ensures
        ok_unless_text(flatten_items(s), has_text_items(s)),
    decreases s,
{
    if s.len() > 0 {
        lemma_plain_items(s.subrange(0, s.len() - 1));
        lemma_plain(s[s.len() - 1]);
    }
}

proof fn lemma_plain_entries(s: Seq<(Value, Value)>)
    requires
        plain_entries(s),
    ensures
        ok_unless_text(flatten_entries(s), has_text_entries(s)),
    decreases s,
{
    if s.len() > 0 {
        lemma_plain_entries(s.subrange(0, s.len() - 1));
        lemma_plain(s[s.len() - 1].1);
    }
}

proof fn lemma_plain_fields(s: Seq<(String, Value)>)
    requires
        plain_fields(s),
    ensures
        ok_unless_text(flatten_fields(s), has_text_fields(s)),
    decreases s,
{
    if s.len() > 0 {
        lemma_plain_fields(s.subrange(0, s.len() - 1));
        lemma_plain(s[s.len() - 1].1);
    }
}

/// A value made of booleans, numbers, optionals and units only (in any
/// records, sequences, variants, and maps with text keys) always flattens.
pub proof fn law_numeric_never_fails(v: Value)
    requires
        plain(v),
        !has_text(v),
    ensures
        flat_map(v) is Ok,
{
    lemma_plain(v);
}

/// A value with a character, string or bytes leaf anywhere fails with
/// `Unsupported`, when nothing else in it fails first: its map keys are
/// text and no failure is reported in it.
pub proof fn law_text_is_unsupported(v: Value)
    requires
        plain(v),
        has_text(v),
    ensures
        flat_map(v) == Err::<Map<Seq<char>, Number>, Error>(Error::Unsupported),
{
    lemma_plain(v);
}

/// Flattening keeps no state between calls: two calls on equal values have
/// the same outcome, maps with the same entries or the same error.
pub proof fn law_deterministic(
    v1: Value,
    v2: Value,
    r1: Result<FlatMap, Error>,
    r2: Result<FlatMap, Error>,
)
    requires
        v1 == v2,
        flattens_to(v1, r1),
        flattens_to(v2, r2),
    ensures
        match (r1, r2) {
            (Ok(a), Ok(b)) => a@ == b@,
            (Err(x), Err(y)) => x == y,
            _ => false,
        },
{
}

} // verus!

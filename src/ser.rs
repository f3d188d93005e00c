use vstd::prelude::*;
use crate::error::Error;
use crate::flat::{apply_writes, FlatMap, Write};
use crate::model::{
    discriminant, flat_map, flatten, flatten_entries, flatten_fields, flatten_items, here, key_of,
    lemma_entries_error, lemma_fields_error, lemma_items_error, lemma_under_concat,
    lemma_under_step, under,
};
use crate::path::{index_segment, key_segment, root, root_path, with_index, with_key};
use crate::value::{Number, Value};

verus! {

/// The flattening visitor: a stack of paths, one per nesting level with the
/// current path on top, and the output map being filled.
pub struct Serializer {
    pos: Vec<String>,
    output: FlatMap,
    log: Ghost<Seq<Write>>,
}

/// `r` is the outcome of flattening `v`: its flat map, or its first error.
pub open spec fn flattens_to(v: Value, r: Result<FlatMap, Error>) -> bool {
    match flat_map(v) {
        Ok(m) => r matches Ok(out) && out.wf() && out@ == m,
        Err(e) => r matches Err(x) && x == e,
    }
}

/// Flattens `value` into a map from paths to numbers, starting at the root
/// path `$`; or returns the first error met in traversal order.
pub fn to_hashmap(value: &Value) -> (r: Result<FlatMap, Error>)
    ensures
        flattens_to(*value, r),
{
    let mut s = Serializer::new();
    match s.serialize(value) {
        Ok(()) => {
            assert(s.log() =~= under(root_path(), flatten(*value)->Ok_0));
            Ok(s.into_output())
        },
        Err(e) => Err(e),
    }
}

/// Turns a map key into a path segment: a text key is taken verbatim, a
/// single-payload wrapper is looked through, anything else is refused with
/// `KeyNotString`.
pub fn key_string(v: &Value) -> (r: Result<String, Error>)
    ensures
        match key_of(*v) {
            Ok(k) => r matches Ok(s) && s@ == k,
            Err(e) => r == Err::<String, Error>(e),
        },
    decreases v,
{
    match v {
        Value::Str(s) => Ok(s.clone()),
        Value::NewtypeStruct(b) => key_string(b),
        _ => Err(Error::KeyNotString),
    }
}

impl Serializer {
    /// The paths on the stack, root first.
    pub closed spec fn paths(&self) -> Seq<Seq<char>> {
        self.pos@.map_values(|s: String| s@)
    }

    /// The current path.
    pub closed spec fn path(&self) -> Seq<char> {
        self.paths().last()
    }

    /// Every write performed so far, in order.
    pub closed spec fn log(&self) -> Seq<Write> {
        self.log@
    }

    pub closed spec fn wf(&self) -> bool {
        &&& self.pos@.len() >= 1
        &&& self.output.wf()
        &&& self.output@ == apply_writes(self.log@)
    }

    /// A visitor at the root `$`, with nothing written.
    pub fn new() -> (r: Serializer)
        ensures
            r.wf(),
            r.paths() == seq![root_path()],
            r.log() == Seq::<Write>::empty(),
    {
        let mut pos = Vec::new();
        pos.push(root());
        let r = Serializer { pos, output: FlatMap::new(), log: Ghost(Seq::empty()) };
        assert(r.paths() =~= seq![root_path()]);
        r
    }

    /// The map written so far.
    pub fn into_output(self) -> (r: FlatMap)
        requires
            self.wf(),
        ensures
            r.wf(),
            r@ == apply_writes(self.log()),
    {
        self.output
    }

    fn push_path(&mut self, p: String)
        requires
            old(self).wf(),
        ensures
            final(self).wf(),
            final(self).paths() == old(self).paths().push(p@),
            final(self).path() == p@,
            final(self).log() == old(self).log(),
    {
        self.pos.push(p);
        assert(self.paths() =~= old(self).paths().push(p@));
    }

    /// Enters the field or key `name`.
    pub(crate) fn push_key(&mut self, name: &str)
        requires
            old(self).wf(),
        ensures
            final(self).wf(),
            final(self).paths() == old(self).paths().push(old(self).path() + key_segment(name@)),
            final(self).path() == old(self).path() + key_segment(name@),
            final(self).log() == old(self).log(),
    {
        assert(self.paths()[self.pos.len() - 1] == self.pos@[self.pos.len() - 1]@);
        let p = with_key(&self.pos[self.pos.len() - 1], name);
        self.push_path(p);
    }

    /// Enters element `i` of a sequence.
    pub(crate) fn push_index(&mut self, i: usize)
        requires
            old(self).wf(),
        ensures
            final(self).wf(),
            final(self).paths() == old(self).paths().push(old(self).path() + index_segment(i as nat)),
            final(self).path() == old(self).path() + index_segment(i as nat),
            final(self).log() == old(self).log(),
    {
        assert(self.paths()[self.pos.len() - 1] == self.pos@[self.pos.len() - 1]@);
        let p = with_index(&self.pos[self.pos.len() - 1], i);
        self.push_path(p);
    }

    /// Returns to the enclosing scope.
    pub(crate) fn pop(&mut self)
        requires
            old(self).wf(),
            old(self).paths().len() >= 2,
        ensures
            final(self).wf(),
            final(self).paths() == old(self).paths().drop_last(),
            final(self).log() == old(self).log(),
    {
        self.pos.pop();
        assert(self.paths() =~= old(self).paths().drop_last());
    }

    /// Writes `n` at the current path.
    pub(crate) fn insert(&mut self, n: Number)
        requires
            old(self).wf(),
        ensures
            final(self).wf(),
            final(self).paths() == old(self).paths(),
            final(self).path() == old(self).path(),
            final(self).log() == old(self).log().push((old(self).path(), n)),
    {
        assert(self.paths()[self.pos.len() - 1] == self.pos@[self.pos.len() - 1]@);
        let p = self.pos[self.pos.len() - 1].clone();
        self.output.insert(p, n);
        self.log = Ghost(self.log@.push((p@, n)));
        assert(self.log@.drop_last() =~= old(self).log@);
    }
    /// Flattens `v` at the current path: performs the writes of `flatten(v)`
    /// below the current path, or returns the first error met. The path
    /// stack is the same on return, whatever the outcome.
    pub fn serialize(&mut self, v: &Value) -> (r: Result<(), Error>)
        requires
            old(self).wf(),
        ensures
            final(self).wf(),
            final(self).paths() == old(self).paths(),
            match flatten(*v) {
                Ok(w) => r is Ok && final(self).log() == old(self).log() + under(old(self).path(), w),
                Err(e) => r == Err::<(), Error>(e),
            },
        decreases v,
    {
        let ghost p = self.path();
        let ghost l = self.log();
        match v {
            Value::Bool(b) => {
                self.insert(Number::Unsigned(if *b { 1 } else { 0 }));
                proof { self.lemma_wrote_here(p, l, flatten(*v)->Ok_0); }
                Ok(())
            },
            Value::Signed(x) => {
                self.insert(Number::Signed(*x));
                proof { self.lemma_wrote_here(p, l, flatten(*v)->Ok_0); }
                Ok(())
            },
            Value::Unsigned(x) => {
                self.insert(Number::Unsigned(*x));
                proof { self.lemma_wrote_here(p, l, flatten(*v)->Ok_0); }
                Ok(())
            },
            Value::Float(x) => {
                self.insert(Number::Float(*x));
                proof { self.lemma_wrote_here(p, l, flatten(*v)->Ok_0); }
                Ok(())
            },
            Value::Char(_) => Err(Error::Unsupported),
            Value::Str(_) => Err(Error::Unsupported),
            Value::Bytes(_) => Err(Error::Unsupported),
            Value::Absent | Value::Unit | Value::UnitStruct => {
                self.insert(Number::Nan);
                proof { self.lemma_wrote_here(p, l, flatten(*v)->Ok_0); }
                Ok(())
            },
            Value::Present(b) => self.serialize(b),
            Value::NewtypeStruct(b) => self.serialize(b),
            Value::UnitVariant(d) => {
                self.insert(Number::Unsigned(*d as u64));
                proof { self.lemma_wrote_here(p, l, flatten(*v)->Ok_0); }
                Ok(())
            },
            Value::NewtypeVariant(d, b) => {
                self.insert(Number::Unsigned(*d as u64));
                let ghost l1 = self.log();
                self.push_index(0);
                let r = self.serialize(b);
                self.pop();
                assert(self.paths() =~= old(self).paths());
                proof {
                    if let Ok(x) = flatten(**b) {
                        lemma_under_step(p, here(discriminant(*d)), index_segment(0), x);
                        self.lemma_after_here(p, l, discriminant(*d), under(p, here(discriminant(*d))));
                        assert(self.log() =~= l + under(p, flatten(*v)->Ok_0));
                    }
                }
                r
            },
            Value::Sequence(items) => self.serialize_items(items),
            Value::Tuple(items) => self.serialize_items(items),
            Value::TupleStruct(items) => self.serialize_items(items),
            Value::TupleVariant(d, items) => {
                self.insert(Number::Unsigned(*d as u64));
                let r = self.serialize_items(items);
                proof {
                    if let Ok(w) = flatten_items(items@) {
                        lemma_under_concat(p, here(discriminant(*d)), w);
                        self.lemma_after_here(p, l, discriminant(*d), under(p, here(discriminant(*d))));
                        assert(self.log() =~= l + under(p, flatten(*v)->Ok_0));
                    }
                }
                r
            },
            Value::Mapping(entries) => self.serialize_entries(entries),
            Value::Struct(fields) => self.serialize_fields(fields),
            Value::StructVariant(d, fields) => {
                self.insert(Number::Unsigned(*d as u64));
                let r = self.serialize_fields(fields);
                proof {
                    if let Ok(w) = flatten_fields(fields@) {
                        lemma_under_concat(p, here(discriminant(*d)), w);
                        self.lemma_after_here(p, l, discriminant(*d), under(p, here(discriminant(*d))));
                        assert(self.log() =~= l + under(p, flatten(*v)->Ok_0));
                    }
                }
                r
            },
            Value::Failed(m) => Err(Error::Message(m.clone())),
        }
    }

    proof fn lemma_wrote_here(&self, p: Seq<char>, l: Seq<Write>, w: Seq<Write>)
        requires
            w.len() == 1,
            w[0].0 == Seq::<char>::empty(),
            self.log() == l.push((p, w[0].1)),
        ensures
            self.log() == l + under(p, w),
    {
        assert(p + Seq::<char>::empty() =~= p);
        assert(self.log() =~= l + under(p, w));
    }

    proof fn lemma_after_here(&self, p: Seq<char>, l: Seq<Write>, n: Number, h: Seq<Write>)
        requires
            h == under(p, here(n)),
        ensures
            h == seq![(p, n)],
    {
        assert(p + Seq::<char>::empty() =~= p);
        assert(h =~= seq![(p, n)]);
    }

    fn serialize_items(&mut self, items: &Vec<Value>) -> (r: Result<(), Error>)
        requires
            old(self).wf(),
        ensures
            final(self).wf(),
            final(self).paths() == old(self).paths(),
            match flatten_items(items@) {
                Ok(w) => r is Ok && final(self).log() == old(self).log() + under(old(self).path(), w),
                Err(e) => r == Err::<(), Error>(e),
            },
        decreases items,
    {
        let ghost p = self.path();
        let ghost l = self.log();
        let mut i: usize = 0;
        assert(items@.subrange(0, 0) =~= Seq::<Value>::empty());
        while i < items.len()
            invariant
                self.wf(),
                self.paths() == old(self).paths(),
                p == old(self).path(),
                l == old(self).log(),
                0 <= i <= items.len(),
                flatten_items(items@.subrange(0, i as int)) is Ok,
                self.log() == l + under(p, flatten_items(items@.subrange(0, i as int))->Ok_0),
            decreases items.len() - i,
        {
            let ghost pre = self.paths();
            let ghost w = flatten_items(items@.subrange(0, i as int))->Ok_0;
            let ghost l0 = self.log();
            self.push_index(i);
            assert(decreases_to!(items => items@[i as int]));
            let r = self.serialize(&items[i]);
            self.pop();
            assert(self.paths() =~= pre);
            let ghost s = items@.subrange(0, i + 1);
            assert(s.subrange(0, i as int) =~= items@.subrange(0, i as int));
            match r {
                Err(e) => {
                    proof { lemma_items_error(items@, i + 1); }
                    return Err(e);
                },
                Ok(()) => {
                    proof {
                        let x = flatten(items@[i as int])->Ok_0;
                        lemma_under_step(p, w, index_segment(i as nat), x);
                        assert(self.log() =~= l + under(p, flatten_items(s)->Ok_0));
                    }
                },
            }
            i = i + 1;
        }
        assert(items@.subrange(0, items.len() as int) =~= items@);
        Ok(())
    }

    fn serialize_entries(&mut self, entries: &Vec<(Value, Value)>) -> (r: Result<(), Error>)
        requires
            old(self).wf(),
        ensures
            final(self).wf(),
            final(self).paths() == old(self).paths(),
            match flatten_entries(entries@) {
                Ok(w) => r is Ok && final(self).log() == old(self).log() + under(old(self).path(), w),
                Err(e) => r == Err::<(), Error>(e),
            },
        decreases entries,
    {
        let ghost p = self.path();
        let ghost l = self.log();
        let mut i: usize = 0;
        assert(entries@.subrange(0, 0) =~= Seq::<(Value, Value)>::empty());
        while i < entries.len()
            invariant
                self.wf(),
                self.paths() == old(self).paths(),
                p == old(self).path(),
                l == old(self).log(),
                0 <= i <= entries.len(),
                flatten_entries(entries@.subrange(0, i as int)) is Ok,
                self.log() == l + under(p, flatten_entries(entries@.subrange(0, i as int))->Ok_0),
            decreases entries.len() - i,
        {
            let ghost pre = self.paths();
            let ghost w = flatten_entries(entries@.subrange(0, i as int))->Ok_0;
            let ghost s = entries@.subrange(0, i + 1);
            assert(s.subrange(0, i as int) =~= entries@.subrange(0, i as int));
            let key = match key_string(&entries[i].0) {
                Ok(k) => k,
                Err(e) => {
                    proof { lemma_entries_error(entries@, i + 1); }
                    return Err(e);
                },
            };
            self.push_key(key.as_str());
            assert(decreases_to!(entries => entries@[i as int].1));
            let r = self.serialize(&entries[i].1);
            self.pop();
            assert(self.paths() =~= pre);
            match r {
                Err(e) => {
                    proof { lemma_entries_error(entries@, i + 1); }
                    return Err(e);
                },
                Ok(()) => {
                    proof {
                        let x = flatten(entries@[i as int].1)->Ok_0;
                        lemma_under_step(p, w, key_segment(key@), x);
                        assert(self.log() =~= l + under(p, flatten_entries(s)->Ok_0));
                    }
                },
            }
            i = i + 1;
        }
        assert(entries@.subrange(0, entries.len() as int) =~= entries@);
        Ok(())
    }

    fn serialize_fields(&mut self, fields: &Vec<(String, Value)>) -> (r: Result<(), Error>)
        requires
            old(self).wf(),
        ensures
            final(self).wf(),
            final(self).paths() == old(self).paths(),
            match flatten_fields(fields@) {
                Ok(w) => r is Ok && final(self).log() == old(self).log() + under(old(self).path(), w),
                Err(e) => r == Err::<(), Error>(e),
            },
        decreases fields,
    {
        let ghost p = self.path();
        let ghost l = self.log();
        let mut i: usize = 0;
        assert(fields@.subrange(0, 0) =~= Seq::<(String, Value)>::empty());
        while i < fields.len()
            invariant
                self.wf(),
                self.paths() == old(self).paths(),
                p == old(self).path(),
                l == old(self).log(),
                0 <= i <= fields.len(),
                flatten_fields(fields@.subrange(0, i as int)) is Ok,
                self.log() == l + under(p, flatten_fields(fields@.subrange(0, i as int))->Ok_0),
            decreases fields.len() - i,
        {
            let ghost pre = self.paths();
            let ghost w = flatten_fields(fields@.subrange(0, i as int))->Ok_0;
            let ghost s = fields@.subrange(0, i + 1);
            assert(s.subrange(0, i as int) =~= fields@.subrange(0, i as int));
            self.push_key(fields[i].0.as_str());
            assert(decreases_to!(fields => fields@[i as int].1));
            let r = self.serialize(&fields[i].1);
            self.pop();
            assert(self.paths() =~= pre);
            match r {
                Err(e) => {
                    proof { lemma_fields_error(fields@, i + 1); }
                    return Err(e);
                },
                Ok(()) => {
                    proof {
                        let x = flatten(fields@[i as int].1)->Ok_0;
                        lemma_under_step(p, w, key_segment(fields@[i as int].0@), x);
                        assert(self.log() =~= l + under(p, flatten_fields(s)->Ok_0));
                    }
                },
            }
            i = i + 1;
        }
        assert(fields@.subrange(0, fields.len() as int) =~= fields@);
        Ok(())
    }
}

} // verus!

use vstd::prelude::*;
use crate::assoc::{Assoc, Dup};
use crate::ids::{is_ascii_alphanumeric, random_alphanumeric};
use crate::text::{lowercase, occurs_at, seq_contains, str_contains, str_eq, to_lowercase};

verus! {

/// The abstract value of a database object.
#[verifier::ext_equal]
pub struct ObjModel {
    pub id: Seq<char>,
    pub deleted: bool,
    pub data: Map<Seq<char>, Seq<char>>,
}

/// A database object: an id, a deletion mark and string fields.
#[derive(Debug)]
pub struct JObj {
    pub id: String,
    pub deleted: bool,
    pub data: Assoc<String>,
}

impl View for JObj {
    type V = ObjModel;

    open spec fn view(&self) -> ObjModel {
        ObjModel { id: self.id@, deleted: self.deleted, data: self.data@ }
    }
}

impl Clone for JObj {
    fn clone(&self) -> (r: Self)
        ensures
            r@ == self@,
    {
        JObj { id: self.id.clone(), deleted: self.deleted, data: self.data.dup_all() }
    }
}

impl Dup for JObj {
    fn dup(&self) -> (r: JObj) {
        self.clone()
    }
}

/// A string made from a string slice.
pub fn owned(s: &str) -> (r: String)
    ensures
        r@ == s@,
{
    s.to_string()
}

impl JObj {
    /// An object with an empty id, no fields, not deleted.
    pub fn make() -> (o: JObj)
        ensures
            o@ == (ObjModel { id: Seq::empty(), deleted: false, data: Map::empty() }),
    {
        JObj { id: String::new(), data: Assoc::new(), deleted: false }
    }

    pub fn field(&self, name: &str) -> (r: Option<&String>)
        ensures
            match r {
                Some(v) => self@.data.contains_key(name@) && v@ == self@.data[name@],
                None => !self@.data.contains_key(name@),
            },
    {
        self.data.get(name)
    }

    pub fn has_field(&self, field_name: &str) -> (r: bool)
        ensures
            r == self@.data.contains_key(field_name@),
    {
        self.data.contains_key(field_name)
    }

    /// Whether the field `name` is present and equal to `value`.
    pub fn field_matches(&self, name: &str, value: &str) -> (r: bool)
        ensures
            r == (self@.data.contains_key(name@) && self@.data[name@] == value@),
    {
        if let Some(val) = self.data.get(name) {
            str_eq(val.as_str(), value)
        } else {
            false
        }
    }

    pub fn add_field(&mut self, key: &str, value: &str)
        ensures
            final(self)@ == (ObjModel { data: old(self)@.data.insert(key@, value@), ..old(self)@ }),
    {
        self.data.insert(owned(key), owned(value));
    }

    pub fn set_field(&mut self, key: &str, value: &str)
        ensures
            final(self)@ == (ObjModel { data: old(self)@.data.insert(key@, value@), ..old(self)@ }),
    {
        self.data.insert(owned(key), owned(value));
    }

    pub fn remove_field(&mut self, key: &str)
        ensures
            final(self)@ == (ObjModel { data: old(self)@.data.remove(key@), ..old(self)@ }),
    {
        self.data.remove(key);
    }
}

/// An attachment of a database object: an id and a path.
#[derive(Debug, Clone)]
pub struct JAttachment {
    pub id: String,
    pub path: String,
}

/// A condition on one field of an object.
#[allow(non_camel_case_types)]
#[derive(Debug)]
pub enum JClause {
    /// The field equals the text.
    equals(String),
    /// The field equals the text, ignoring case.
    equalsi(String),
    /// The field contains the text.
    substring(String),
    /// The field contains the text, ignoring case.
    substringi(String),
}

/// The abstract value of a clause.
pub enum ClauseModel {
    Equals(Seq<char>),
    EqualsI(Seq<char>),
    Substring(Seq<char>),
    SubstringI(Seq<char>),
}

impl View for JClause {
    type V = ClauseModel;

    open spec fn view(&self) -> ClauseModel {
        match self {
            JClause::equals(t) => ClauseModel::Equals(t@),
            JClause::equalsi(t) => ClauseModel::EqualsI(t@),
            JClause::substring(t) => ClauseModel::Substring(t@),
            JClause::substringi(t) => ClauseModel::SubstringI(t@),
        }
    }
}

impl Dup for JClause {
    fn dup(&self) -> (r: JClause) {
        match self {
            JClause::equals(t) => JClause::equals(t.clone()),
            JClause::equalsi(t) => JClause::equalsi(t.clone()),
            JClause::substring(t) => JClause::substring(t.clone()),
            JClause::substringi(t) => JClause::substringi(t.clone()),
        }
    }
}

/// Whether a field value satisfies a clause.
pub open spec fn clause_holds(c: ClauseModel, val: Seq<char>) -> bool {
    match c {
        ClauseModel::Equals(t) => t == val,
        ClauseModel::EqualsI(t) => lowercase(t) == lowercase(val),
        ClauseModel::Substring(t) => seq_contains(val, t),
        ClauseModel::SubstringI(t) => seq_contains(lowercase(val), lowercase(t)),
    }
}

/// Whether an object's fields satisfy every clause of a query: each field
/// named by a clause is present and satisfies it.
pub open spec fn query_matches(q: Map<Seq<char>, ClauseModel>, data: Map<Seq<char>, Seq<char>>) -> bool {
    forall|k: Seq<char>|
        #[trigger] q.contains_key(k) ==> data.contains_key(k) && clause_holds(q[k], data[k])
}

/// Whether `val` satisfies `clause`.
pub fn clause_matches(clause: &JClause, val: &String) -> (r: bool)
    ensures
        r == clause_holds(clause@, val@),
{
    match clause {
        JClause::equals(t) => str_eq(t.as_str(), val.as_str()),
        JClause::equalsi(t) => {
            let a = to_lowercase(t.as_str());
            let b = to_lowercase(val.as_str());
            a == b
        },
        JClause::substring(t) => str_contains(val.as_str(), t.as_str()),
        JClause::substringi(t) => {
            let v = to_lowercase(val.as_str());
            let t2 = to_lowercase(t.as_str());
            str_contains(v.as_str(), t2.as_str())
        },
    }
}

/// A query: at most one clause per field name.
pub struct JQuery {
    clauses: Assoc<JClause>,
}

impl View for JQuery {
    type V = Map<Seq<char>, ClauseModel>;

    open spec fn view(&self) -> Map<Seq<char>, ClauseModel> {
        self.spec_clauses()
    }
}

impl JQuery {
    pub closed spec fn spec_clauses(&self) -> Map<Seq<char>, ClauseModel> {
        self.clauses@
    }

    /// A query without clauses; it matches every object.
    pub fn new() -> (q: JQuery)
        ensures
            q@ == Map::<Seq<char>, ClauseModel>::empty(),
    {
        JQuery { clauses: Assoc::new() }
    }

    /// Whether `item` satisfies every clause.
    pub fn matches(&self, item: &JObj) -> (r: bool)
        ensures
            r == query_matches(self@, item@.data),
    {
        let entries = self.clauses.entries();
        let mut i: usize = 0;
        while i < entries.len()
            invariant
                i <= entries@.len(),
                forall|j: int|
                    0 <= j < entries@.len() ==> #[trigger] self.clauses@.contains_key(entries@[j].0@)
                        && self.clauses@[entries@[j].0@] == entries@[j].1@,
                forall|k: Seq<char>| #[trigger] self.clauses@.contains_key(k) ==> exists|j: int|
                    0 <= j < entries@.len() && entries@[j].0@ == k,
                forall|j: int|
                    0 <= j < i ==> item@.data.contains_key(#[trigger] entries@[j].0@) && clause_holds(
                        entries@[j].1@,
                        item@.data[entries@[j].0@],
                    ),
            decreases entries@.len() - i,
        {
            let key = &entries[i].0;
            let clause = &entries[i].1;
            match item.field(key.as_str()) {
                None => {
                    assert(self.clauses@.contains_key(entries@[i as int].0@));
                    return false;
                },
                Some(val) => {
                    if !clause_matches(clause, val) {
                        assert(self.clauses@.contains_key(entries@[i as int].0@));
                        return false;
                    }
                },
            }
            i = i + 1;
        }
        proof {
            assert forall|k: Seq<char>| #[trigger] self@.contains_key(k) implies item@.data.contains_key(k)
                && clause_holds(self@[k], item@.data[k]) by {
                let j = choose|j: int| 0 <= j < entries@.len() && entries@[j].0@ == k;
                assert(item@.data.contains_key(entries@[j].0@));
            }
        }
        true
    }

    pub fn add_equal(&mut self, key: &str, value: &str)
        ensures
            final(self)@ == old(self)@.insert(key@, ClauseModel::Equals(value@)),
    {
        self.clauses.insert(owned(key), JClause::equals(owned(value)));
    }

    pub fn add_equal_ci(&mut self, key: &str, value: &str)
        ensures
            final(self)@ == old(self)@.insert(key@, ClauseModel::EqualsI(value@)),
    {
        self.clauses.insert(owned(key), JClause::equalsi(owned(value)));
    }

    pub fn add_substring(&mut self, key: &str, value: &str)
        ensures
            final(self)@ == old(self)@.insert(key@, ClauseModel::Substring(value@)),
    {
        self.clauses.insert(owned(key), JClause::substring(owned(value)));
    }

    pub fn add_substringi(&mut self, key: &str, value: &str)
        ensures
            final(self)@ == old(self)@.insert(key@, ClauseModel::SubstringI(value@)),
    {
        self.clauses.insert(owned(key), JClause::substringi(owned(value)));
    }
}

/// The abstract values of a list of objects.
pub open spec fn models(s: Seq<JObj>) -> Seq<ObjModel> {
    s.map_values(|o: JObj| o@)
}

/// Not deleted and carrying the given id.
pub open spec fn live_with_id(o: ObjModel, id: Seq<char>) -> bool {
    o.id == id && !o.deleted
}

/// What a query returns from the objects: those not deleted that satisfy
/// it, in order.
pub open spec fn query_results(objs: Seq<ObjModel>, q: Map<Seq<char>, ClauseModel>) -> Seq<ObjModel> {
    objs.filter(|o: ObjModel| !o.deleted && query_matches(q, o.data))
}

/// The objects that carry a different id.
pub open spec fn without_id(objs: Seq<ObjModel>, id: Seq<char>) -> Seq<ObjModel> {
    objs.filter(|o: ObjModel| o.id != id)
}

/// The objects whose field `name` equals `value`.
pub open spec fn with_field(objs: Seq<ObjModel>, name: Seq<char>, value: Seq<char>) -> Seq<ObjModel> {
    objs.filter(|o: ObjModel| o.data.contains_key(name) && o.data[name] == value)
}

/// The object at `i` with its deletion mark set.
pub open spec fn mark_deleted(objs: Seq<ObjModel>, i: int) -> Seq<ObjModel> {
    objs.update(i, ObjModel { deleted: true, ..objs[i] })
}

/// A document database held in memory: a list of objects, where a deleted
/// object stays in the list with its mark set.
pub struct JDB {
    pub data: Vec<JObj>,
    pub base_path: Option<String>,
    pub save_path: Option<String>,
}

impl View for JDB {
    type V = Seq<ObjModel>;

    open spec fn view(&self) -> Seq<ObjModel> {
        models(self.data@)
    }
}

impl JDB {
    /// A database without objects or paths.
    pub fn make_empty() -> (db: JDB)
        ensures
            db@ == Seq::<ObjModel>::empty(),
            db.base_path is None,
            db.save_path is None,
    {
        let db = JDB { data: vec![], base_path: None, save_path: None };
        assert(db@ =~= Seq::<ObjModel>::empty());
        db
    }

    /// A database holding `objs`, in order, loaded from `base_path` and
    /// saving to `save_path`.
    pub fn from_objects(objs: Vec<JObj>, base_path: Option<String>, save_path: Option<String>) -> (db: JDB)
        ensures
            db@ == models(objs@),
            db.base_path == base_path,
            db.save_path == save_path,
    {
        JDB { data: objs, base_path, save_path }
    }

    /// The objects, deleted ones included.
    pub fn objects(&self) -> (r: &Vec<JObj>)
        ensures
            models(r@) == self@,
    {
        &self.data
    }

    pub fn add_object(&mut self, obj: JObj)
        ensures
            final(self)@ == old(self)@.push(obj@),
            final(self).base_path == old(self).base_path,
            final(self).save_path == old(self).save_path,
    {
        let ghost o = obj@;
        self.data.push(obj);
        assert(models(self.data@) =~= models(old(self).data@).push(o));
    }

    /// The first object that is not deleted and has the given id.
    pub fn find_by_id(&self, id: &str) -> (r: Option<&JObj>)
        ensures
            match r {
                Some(o) => exists|i: int|
                    0 <= i < self@.len() && live_with_id(self@[i], id@) && o@ == self@[i] && forall|j: int|
                        0 <= j < i ==> !live_with_id(#[trigger] self@[j], id@),
                None => forall|i: int| 0 <= i < self@.len() ==> !live_with_id(#[trigger] self@[i], id@),
            },
    {
        let mut i: usize = 0;
        while i < self.data.len()
            invariant
                i <= self.data@.len(),
                self@ == models(self.data@),
                forall|j: int| 0 <= j < i ==> !live_with_id(#[trigger] self@[j], id@),
            decreases self.data@.len() - i,
        {
            if str_eq(self.data[i].id.as_str(), id) && !self.data[i].deleted {
                assert(live_with_id(self@[i as int], id@));
                return Some(&self.data[i]);
            }
            i = i + 1;
        }
        None
    }

    /// Replaces every object with the id of `obj` by `obj`, which goes last.
    pub fn update_object(&mut self, obj: JObj)
        ensures
            final(self)@ == without_id(old(self)@, obj@.id).push(obj@),
            final(self).base_path == old(self).base_path,
            final(self).save_path == old(self).save_path,
    {
        let ghost objs = self@;
        let mut kept: Vec<JObj> = Vec::new();
        let mut old_data: Vec<JObj> = Vec::new();
        std::mem::swap(&mut old_data, &mut self.data);
        assert(models(old_data@) == objs);
        let mut i: usize = 0;
        while i < old_data.len()
            invariant
                i <= old_data@.len(),
                models(old_data@) == objs,
                models(kept@) == without_id(objs.take(i as int), obj@.id),
            decreases old_data@.len() - i,
        {
            proof {
                reveal_with_fuel(Seq::filter, 1);
                assert(objs.take(i + 1).drop_last() =~= objs.take(i as int));
            }
            if !str_eq(old_data[i].id.as_str(), obj.id.as_str()) {
                let c = old_data[i].clone();
                kept.push(c);
                proof {
                    assert(models(kept@) =~= without_id(objs.take(i as int), obj@.id).push(objs[i as int]));
                }
            }
            i = i + 1;
        }
        assert(objs.take(old_data@.len() as int) =~= objs);
        let ghost o = obj@;
        kept.push(obj);
        assert(models(kept@) =~= without_id(objs, o.id).push(o));
        self.data = kept;
    }

    /// Marks deleted the first object with the id of `obj`; without such an
    /// object nothing changes.
    pub fn delete(&mut self, obj: &JObj)
        ensures
            final(self).base_path == old(self).base_path,
            final(self).save_path == old(self).save_path,
            (exists|i: int| 0 <= i < old(self)@.len() && old(self)@[i].id == obj@.id) ==> exists|i: int|
                0 <= i < old(self)@.len() && old(self)@[i].id == obj@.id && (forall|j: int|
                    0 <= j < i ==> #[trigger] old(self)@[j].id != obj@.id) && final(self)@
                    == mark_deleted(old(self)@, i),
            (forall|i: int| 0 <= i < old(self)@.len() ==> old(self)@[i].id != obj@.id) ==> final(self)@
                == old(self)@,
    {
        let ghost objs = self@;
        let mut i: usize = 0;
        while i < self.data.len()
            invariant
                i <= self.data@.len(),
                self@ == objs,
                objs == old(self)@,
                objs == models(self.data@),
                self.base_path == old(self).base_path,
                self.save_path == old(self).save_path,
                forall|j: int| 0 <= j < i ==> #[trigger] objs[j].id != obj@.id,
            decreases self.data@.len() - i,
        {
            if str_eq(self.data[i].id.as_str(), obj.id.as_str()) {
                assert(objs[i as int].id == obj@.id);
                self.data[i].deleted = true;
                assert(models(self.data@) =~= mark_deleted(objs, i as int));
                return;
            }
            i = i + 1;
        }
    }

    /// Copies of the objects that are not deleted and satisfy `query`.
    pub fn process_query(&self, query: &JQuery) -> (results: Vec<JObj>)
        ensures
            models(results@) == query_results(self@, query@),
    {
        let ghost objs = self@;
        let mut results: Vec<JObj> = vec![];
        let mut i: usize = 0;
        while i < self.data.len()
            invariant
                i <= self.data@.len(),
                objs == models(self.data@),
                objs == self@,
                models(results@) == query_results(objs.take(i as int), query@),
            decreases self.data@.len() - i,
        {
            proof {
                reveal_with_fuel(Seq::filter, 1);
                assert(objs.take(i + 1).drop_last() =~= objs.take(i as int));
            }
            let item = &self.data[i];
            if item.deleted == false && query.matches(item) {
                let c = item.clone();
                results.push(c);
                proof {
                    assert(models(results@) =~= query_results(objs.take(i as int), query@).push(objs[i as int]));
                }
            }
            i = i + 1;
        }
        assert(objs.take(self.data@.len() as int) =~= objs);
        results
    }

    /// Stores `opb` with `update_object` and hands back a copy of it.
    pub fn process_update(&mut self, opb: JObj) -> (r: JObj)
        ensures
            r@ == opb@,
            final(self)@ == without_id(old(self)@, opb@.id).push(opb@),
            final(self).base_path == old(self).base_path,
            final(self).save_path == old(self).save_path,
    {
        let cl = opb.clone();
        self.update_object(opb);
        cl
    }

    /// Marks the object deleted with `delete` and hands back a copy of the
    /// argument.
    pub fn process_delete(&mut self, obj: JObj) -> (r: JObj)
        ensures
            r@ == obj@,
            final(self).base_path == old(self).base_path,
            final(self).save_path == old(self).save_path,
            (exists|i: int| 0 <= i < old(self)@.len() && old(self)@[i].id == obj@.id) ==> exists|i: int|
                0 <= i < old(self)@.len() && old(self)@[i].id == obj@.id && (forall|j: int|
                    0 <= j < i ==> #[trigger] old(self)@[j].id != obj@.id) && final(self)@
                    == mark_deleted(old(self)@, i),
            (forall|i: int| 0 <= i < old(self)@.len() ==> old(self)@[i].id != obj@.id) ==> final(self)@
                == old(self)@,
    {
        let cl = obj.clone();
        self.delete(&obj);
        cl
    }

    /// The objects, deleted ones included, whose field `name` equals `value`.
    pub fn find_by_field(&self, name: &str, value: &str) -> (r: Vec<&JObj>)
        ensures
            r@.map_values(|o: &JObj| o@) == with_field(self@, name@, value@),
    {
        let ghost objs = self@;
        let mut r: Vec<&JObj> = Vec::new();
        let mut i: usize = 0;
        while i < self.data.len()
            invariant
                i <= self.data@.len(),
                objs == models(self.data@),
                objs == self@,
                r@.map_values(|o: &JObj| o@) == with_field(objs.take(i as int), name@, value@),
            decreases self.data@.len() - i,
        {
            proof {
                reveal_with_fuel(Seq::filter, 1);
                assert(objs.take(i + 1).drop_last() =~= objs.take(i as int));
            }
            let ghost before = r@;
            if self.data[i].field_matches(name, value) {
                r.push(&self.data[i]);
                assert(r@.map_values(|o: &JObj| o@) =~= before.map_values(|o: &JObj| o@).push(
                    objs[i as int],
                ));
            } else {
                assert(r@ == before);
            }
            i = i + 1;
        }
        assert(objs.take(self.data@.len() as int) =~= objs);
        r
    }
}

/// An object as read from a stored file: its id, its deletion mark if the
/// file has one, and its fields, where a field whose stored value is not a
/// string has no value.
pub struct RawObj {
    pub id: String,
    pub deleted: Option<bool>,
    pub fields: Vec<(String, Option<String>)>,
}

/// The fields of a stored object that have string values, a later field
/// overriding an earlier one with the same name.
pub open spec fn raw_fields(fs: Seq<(String, Option<String>)>) -> Map<Seq<char>, Seq<char>>
    decreases fs.len(),
{
    if fs.len() == 0 {
        Map::empty()
    } else {
        let m = raw_fields(fs.drop_last());
        match fs.last().1 {
            Some(v) => m.insert(fs.last().0@, v@),
            None => m,
        }
    }
}

/// The object that a stored object gives: a missing deletion mark reads as
/// not deleted.
pub open spec fn raw_model(r: RawObj) -> ObjModel {
    ObjModel {
        id: r.id@,
        deleted: match r.deleted {
            Some(b) => b,
            None => false,
        },
        data: raw_fields(r.fields@),
    }
}

/// The objects given by stored objects, in order.
pub fn process_obj_values(values: &Vec<RawObj>) -> (songs: Vec<JObj>)
    ensures
        models(songs@) == values@.map_values(|r: RawObj| raw_model(r)),
{
    let mut songs: Vec<JObj> = vec![];
    let mut n: usize = 0;
    while n < values.len()
        invariant
            n <= values@.len(),
            models(songs@) == values@.take(n as int).map_values(|r: RawObj| raw_model(r)),
        decreases values@.len() - n,
    {
        let ob = &values[n];
        let mut song = JObj::make();
        song.id = ob.id.clone();
        song.deleted = match ob.deleted {
            Some(b) => b,
            None => false,
        };
        let mut k: usize = 0;
        while k < ob.fields.len()
            invariant
                k <= ob.fields@.len(),
                song@ == (ObjModel { data: raw_fields(ob.fields@.take(k as int)), ..raw_model(*ob) }),
            decreases ob.fields@.len() - k,
        {
            assert(ob.fields@.take(k + 1).drop_last() =~= ob.fields@.take(k as int));
            match &ob.fields[k].1 {
                Some(v) => {
                    song.data.insert(ob.fields[k].0.clone(), v.clone());
                },
                None => {},
            }
            k = k + 1;
        }
        assert(ob.fields@.take(ob.fields@.len() as int) =~= ob.fields@);
        let ghost before = songs@;
        songs.push(song);
        proof {
            assert(values@.take(n + 1).drop_last() =~= values@.take(n as int));
            assert(models(songs@) =~= models(before).push(raw_model(values@[n as int])));
            assert(values@.take(n + 1).map_values(|r: RawObj| raw_model(r)) =~= values@.take(
                n as int,
            ).map_values(|r: RawObj| raw_model(r)).push(raw_model(values@[n as int])));
        }
        n = n + 1;
    }
    assert(values@.take(values@.len() as int) =~= values@);
    songs
}

/// No two objects share an id.
pub open spec fn ids_unique(s: Seq<ObjModel>) -> bool {
    forall|i: int, j: int| 0 <= i < s.len() && 0 <= j < s.len() && i != j ==> s[i].id != s[j].id
}

/// The object at `i` is the last one with its id.
pub open spec fn is_last_of(s: Seq<ObjModel>, i: int) -> bool {
    0 <= i < s.len() && forall|j: int| i < j < s.len() ==> #[trigger] s[j].id != s[i].id
}

/// `r` keeps exactly the objects of `s` that are the last with their id,
/// no id twice.
pub open spec fn keeps_last(s: Seq<ObjModel>, r: Seq<ObjModel>) -> bool {
    &&& ids_unique(r)
    &&& forall|j: int| 0 <= j < r.len() ==> exists|k: int| #[trigger] is_last_of(s, k) && #[trigger] r[j] == s[k]
    &&& forall|k: int| #[trigger] is_last_of(s, k) ==> exists|j: int| 0 <= j < r.len() && r[j] == s[k]
}

/// One step of merging: the object `o` read after the prefix `p` either
/// replaces the kept object with its id at `pos` or is added at the end.
proof fn lemma_merge_step(p: Seq<ObjModel>, o: ObjModel, before: Seq<ObjModel>, after: Seq<ObjModel>, pos: int)
    requires
        keeps_last(p, before),
        (0 <= pos < before.len() && before[pos].id == o.id && after == before.update(pos, o)) || (
        pos == before.len() && (forall|q: int| 0 <= q < before.len() ==> before[q].id != o.id)
            && after == before.push(o)),
    ensures
        keeps_last(p.push(o), after),
{
    let p2 = p.push(o);
    let n = p.len() as int;
    assert(is_last_of(p2, n));
    assert forall|k: int| 0 <= k < n && #[trigger] is_last_of(p2, k) implies is_last_of(p, k) && p[k].id
        != o.id by {
        assert(p2[n].id != p2[k].id);
        assert forall|j: int| k < j < p.len() implies #[trigger] p[j].id != p[k].id by {
            assert(p2[j] == p[j]);
        }
    }
    assert forall|k: int| #[trigger] is_last_of(p, k) && p[k].id != o.id implies is_last_of(p2, k) by {
        assert forall|j: int| k < j < p2.len() implies #[trigger] p2[j].id != p2[k].id by {
            if j < n {
                assert(p2[j] == p[j]);
            }
        }
    }
    assert forall|a: int, b: int| 0 <= a < after.len() && 0 <= b < after.len() && a != b implies after[a].id
        != after[b].id by {
        if a == pos {
            assert(after[a].id == o.id);
            if pos < before.len() {
                assert(before[a].id == o.id);
            }
            assert(after[b] == before[b]);
        } else if b == pos {
            assert(after[b].id == o.id);
            if pos < before.len() {
                assert(before[b].id == o.id);
            }
            assert(after[a] == before[a]);
        } else {
            assert(after[a] == before[a] && after[b] == before[b]);
        }
    }
    assert forall|j: int| 0 <= j < after.len() implies exists|k: int| #[trigger] is_last_of(p2, k) && #[trigger] after[j]
        == p2[k] by {
        if j == pos {
            assert(after[j] == p2[n]);
        } else {
            assert(after[j] == before[j]);
            let k = choose|k: int| #[trigger] is_last_of(p, k) && #[trigger] before[j] == p[k];
            if p[k].id == o.id {
                if pos < before.len() {
                    assert(before[pos].id == before[j].id);
                }
                assert(false);
            }
            assert(is_last_of(p2, k));
            assert(p2[k] == p[k]);
        }
    }
    assert forall|k: int| #[trigger] is_last_of(p2, k) implies exists|j: int| 0 <= j < after.len() && after[j]
        == p2[k] by {
        if k == n {
            assert(after[pos] == p2[k]);
        } else {
            assert(is_last_of(p, k) && p[k].id != o.id);
            let j = choose|j: int| 0 <= j < before.len() && before[j] == p[k];
            assert(j != pos);
            assert(after[j] == p2[k]);
        }
    }
}

/// Position of the object with the given id.
fn position_of_id(r: &Vec<JObj>, id: &str) -> (pos: Option<usize>)
    ensures
        match pos {
            Some(p) => p < r@.len() && r@[p as int]@.id == id@,
            None => forall|q: int| 0 <= q < r@.len() ==> r@[q]@.id != id@,
        },
{
    let mut q: usize = 0;
    while q < r.len()
        invariant
            q <= r@.len(),
            forall|t: int| 0 <= t < q ==> r@[t]@.id != id@,
        decreases r@.len() - q,
    {
        if str_eq(r[q].id.as_str(), id) {
            return Some(q);
        }
        q = q + 1;
    }
    None
}

/// Keeps, for each id, the last object that carries it, so that objects
/// read later replace those read earlier.
pub fn merge_objects(items: Vec<JObj>) -> (r: Vec<JObj>)
    ensures
        keeps_last(models(items@), models(r@)),
{
    let ghost s = models(items@);
    let mut r: Vec<JObj> = Vec::new();
    assert(keeps_last(s.take(0), models(r@)));
    let mut i: usize = 0;
    while i < items.len()
        invariant
            i <= items@.len(),
            s == models(items@),
            keeps_last(s.take(i as int), models(r@)),
        decreases items@.len() - i,
    {
        let item = items[i].clone();
        assert(s.take(i + 1) =~= s.take(i as int).push(item@));
        let ghost before = models(r@);
        match position_of_id(&r, item.id.as_str()) {
            Some(pos) => {
                let ghost o = item@;
                r.set(pos, item);
                proof {
                    assert(models(r@) =~= before.update(pos as int, o));
                    lemma_merge_step(s.take(i as int), o, before, models(r@), pos as int);
                }
            },
            None => {
                let ghost o = item@;
                r.push(item);
                proof {
                    assert(models(r@) =~= before.push(o));
                    lemma_merge_step(s.take(i as int), o, before, models(r@), before.len() as int);
                }
            },
        }
        i = i + 1;
    }
    assert(s.take(items@.len() as int) =~= s);
    r
}

impl JDB {
    /// Adds a copy of `obj` whose id is `obj_$` followed by `suffix`, and
    /// hands that copy back.
    pub fn add_with_suffix(&mut self, obj: JObj, suffix: &str) -> (r: JObj)
        ensures
            r@ == (ObjModel { id: "obj_$"@ + suffix@, ..obj@ }),
            final(self)@ == old(self)@.push(r@),
            final(self).base_path == old(self).base_path,
            final(self).save_path == old(self).save_path,
    {
        let mut cl = obj.clone();
        let mut id = owned("obj_$");
        id.append(suffix);
        cl.id = id;
        self.add_object(cl.clone());
        cl
    }

    /// Adds a copy of `obj` under a fresh id made of `obj_$` and thirty
    /// random ASCII letters and digits, and hands that copy back.
    pub fn process_add(&mut self, obj: JObj) -> (r: JObj)
        ensures
            exists|suffix: Seq<char>|
                suffix.len() == 30 && (forall|i: int| 0 <= i < 30 ==> is_ascii_alphanumeric(#[trigger] suffix[i]))
                    && r@ == (ObjModel { id: "obj_$"@ + suffix, ..obj@ }),
            final(self)@ == old(self)@.push(r@),
            final(self).base_path == old(self).base_path,
            final(self).save_path == old(self).save_path,
    {
        let rand_string = random_alphanumeric(30);
        self.add_with_suffix(obj, rand_string.as_str())
    }
}

/// After `update_object(o)` with `o` not deleted, `o` is the only object
/// with its id and it is live, so `find_by_id` gives `o` back.
pub proof fn lemma_update_then_find(s: Seq<ObjModel>, o: ObjModel)
    requires
        !o.deleted,
    ensures
        ({
            let t = without_id(s, o.id).push(o);
            &&& live_with_id(t[t.len() - 1], o.id)
            &&& t[t.len() - 1] == o
            &&& forall|j: int| 0 <= j < t.len() - 1 ==> (#[trigger] t[j]).id != o.id
        }),
{
    let w = without_id(s, o.id);
    let t = w.push(o);
    assert forall|j: int| 0 <= j < t.len() - 1 implies (#[trigger] t[j]).id != o.id by {
        assert(t[j] == w[j]);
        assert(w.contains(w[j]));
    }
}

/// In a database whose ids are unique, after `delete` marks the object with
/// a given id, no live object carries that id, so `find_by_id` finds none.
pub proof fn lemma_delete_then_find(s: Seq<ObjModel>, i: int)
    requires
        ids_unique(s),
        0 <= i < s.len(),
    ensures
        forall|j: int| 0 <= j < s.len() ==> !live_with_id(#[trigger] mark_deleted(s, i)[j], s[i].id),
{
}

/// Adding an object and then querying gives what the query gave before,
/// followed by the new object when it is live and matches.
pub proof fn lemma_add_then_query(s: Seq<ObjModel>, o: ObjModel, q: Map<Seq<char>, ClauseModel>)
    ensures
        query_results(s.push(o), q) == if !o.deleted && query_matches(q, o.data) {
            query_results(s, q).push(o)
        } else {
            query_results(s, q)
        },
{
    reveal_with_fuel(Seq::filter, 1);
    assert(s.push(o).drop_last() =~= s);
}

/// Dropping the objects with an id a second time drops nothing more.
proof fn lemma_without_id_twice(s: Seq<ObjModel>, id: Seq<char>)
    ensures
        without_id(without_id(s, id), id) == without_id(s, id),
    decreases s.len(),
{
    reveal_with_fuel(Seq::filter, 1);
    if s.len() > 0 {
        let p = |o: ObjModel| o.id != id;
        lemma_without_id_twice(s.drop_last(), id);
        s.drop_last().filter(p).lemma_filter_push(s.last(), p);
    }
}

/// Updating with the same object a second time leaves the objects as the
/// first update left them (`process_update` then hands back the object again).
pub proof fn lemma_update_twice(s: Seq<ObjModel>, o: ObjModel)
    ensures
        ({
            let once = without_id(s, o.id).push(o);
            without_id(once, o.id).push(o) == once
        }),
{
    let p = |x: ObjModel| x.id != o.id;
    let w = without_id(s, o.id);
    w.lemma_filter_push(o, p);
    lemma_without_id_twice(s, o.id);
}

/// The fields of stored entries whose keys differ and whose values are all
/// present: each entry's key bound to its value, and nothing else.
proof fn lemma_raw_fields_of_entries(fs: Seq<(String, Option<String>)>)
    requires
        forall|j: int| 0 <= j < fs.len() ==> (#[trigger] fs[j]).1 is Some,
        forall|i: int, j: int| 0 <= i < fs.len() && 0 <= j < fs.len() && i != j ==> fs[i].0@ != fs[j].0@,
    ensures
        forall|k: Seq<char>| #[trigger] raw_fields(fs).dom().contains(k) <==> exists|j: int| 0 <= j < fs.len() && fs[j].0@ == k,
        forall|j: int| 0 <= j < fs.len() ==> raw_fields(fs)[(#[trigger] fs[j]).0@] == fs[j].1->0@,
    decreases fs.len(),
{
    if fs.len() > 0 {
        let rest = fs.drop_last();
        let n = fs.len() - 1;
        assert forall|j: int| 0 <= j < rest.len() implies (#[trigger] rest[j]).1 is Some by {
            assert(rest[j] == fs[j]);
        }
        lemma_raw_fields_of_entries(rest);
        assert(fs.last() == fs[n]);
        assert(fs[n].1 is Some);
        let m = raw_fields(rest);
        assert(raw_fields(fs) == m.insert(fs[n].0@, fs[n].1->0@));
        assert forall|k: Seq<char>| #[trigger] raw_fields(fs).dom().contains(k) <==> exists|j: int| 0 <= j < fs.len() && fs[j].0@ == k by {
            if raw_fields(fs).dom().contains(k) {
                if k == fs[n].0@ {
                    assert(fs[n].0@ == k);
                } else {
                    assert(m.dom().contains(k));
                    let j = choose|j: int| 0 <= j < rest.len() && rest[j].0@ == k;
                    assert(fs[j] == rest[j]);
                }
            }
            if exists|j: int| 0 <= j < fs.len() && fs[j].0@ == k {
                let j = choose|j: int| 0 <= j < fs.len() && fs[j].0@ == k;
                if j < n {
                    assert(rest[j] == fs[j]);
                    assert(m.dom().contains(k));
                }
            }
        }
        assert forall|j: int| 0 <= j < fs.len() implies raw_fields(fs)[(#[trigger] fs[j]).0@] == fs[j].1->0@ by {
            if j < n {
                assert(rest[j] == fs[j]);
                assert(fs[j].0@ != fs[n].0@);
            }
        }
    }
}

impl JObj {
    /// The object as it is stored: its id, its deletion mark and each of its
    /// fields once.
    pub fn to_raw(&self) -> (r: RawObj)
        ensures
            raw_model(r) == self@,
            r.deleted == Some(self.deleted),
    {
        let entries = self.data.entries();
        let mut fields: Vec<(String, Option<String>)> = Vec::new();
        let mut i: usize = 0;
        while i < entries.len()
            invariant
                i <= entries@.len(),
                fields@.len() == i,
                forall|j: int|
                    0 <= j < i ==> (#[trigger] fields@[j]).0@ == entries@[j].0@ && fields@[j].1 is Some
                        && fields@[j].1->0@ == entries@[j].1@,
            decreases entries@.len() - i,
        {
            let k = entries[i].0.clone();
            let v = entries[i].1.clone();
            fields.push((k, Some(v)));
            i = i + 1;
        }
        let r = RawObj { id: self.id.clone(), deleted: Some(self.deleted), fields };
        proof {
            let fs = r.fields@;
            assert forall|j: int| 0 <= j < fs.len() implies (#[trigger] fs[j]).1 is Some by {}
            assert forall|a: int, b: int| 0 <= a < fs.len() && 0 <= b < fs.len() && a != b implies fs[a].0@ != fs[b].0@ by {
                assert(fs[a].0@ == entries@[a].0@);
                assert(fs[b].0@ == entries@[b].0@);
            }
            lemma_raw_fields_of_entries(fs);
            assert forall|k: Seq<char>| #[trigger] raw_fields(fs).dom().contains(k) <==> self.data@.dom().contains(k) by {
                if raw_fields(fs).dom().contains(k) {
                    let j = choose|j: int| 0 <= j < fs.len() && fs[j].0@ == k;
                    assert(fs[j].0@ == entries@[j].0@);
                    assert(self.data@.dom().contains(entries@[j].0@));
                }
                if self.data@.dom().contains(k) {
                    let j = choose|j: int| 0 <= j < entries@.len() && entries@[j].0@ == k;
                    assert(fs[j].0@ == entries@[j].0@);
                }
            }
            assert forall|k: Seq<char>| #[trigger] self.data@.dom().contains(k) implies raw_fields(fs)[k] == self.data@[k] by {
                let j = choose|j: int| 0 <= j < entries@.len() && entries@[j].0@ == k;
                assert(fs[j].0@ == entries@[j].0@);
                assert(self.data@.dom().contains(entries@[j].0@));
            }
            assert(raw_fields(fs) =~= self.data@);
        }
        r
    }
}

impl JDB {
    /// The objects as they are written out when the database is saved,
    /// deleted ones included, in order.
    pub fn stored_objects(&self) -> (r: Vec<RawObj>)
        ensures
            r@.map_values(|o: RawObj| raw_model(o)) == self@,
    {
        let mut r: Vec<RawObj> = Vec::new();
        let mut i: usize = 0;
        while i < self.data.len()
            invariant
                i <= self.data@.len(),
                r@.len() == i,
                forall|j: int| 0 <= j < i ==> raw_model(#[trigger] r@[j]) == self.data@[j]@,
            decreases self.data@.len() - i,
        {
            r.push(self.data[i].to_raw());
            i = i + 1;
        }
        assert(r@.map_values(|o: RawObj| raw_model(o)) =~= self@);
        r
    }

    /// The database read from the stored objects of `base` and then, where
    /// there is one, of the appended file, an object read later replacing
    /// one with the same id read earlier.
    pub fn from_stored(base: &Vec<RawObj>, appended: Option<&Vec<RawObj>>, base_path: Option<String>, save_path: Option<String>) -> (db: JDB)
        ensures
            keeps_last(
                base@.map_values(|o: RawObj| raw_model(o)) + match appended {
                    Some(a) => a@.map_values(|o: RawObj| raw_model(o)),
                    None => Seq::empty(),
                },
                db@,
            ),
            db.base_path == base_path,
            db.save_path == save_path,
    {
        let mut items = process_obj_values(base);
        let ghost first = models(items@);
        match appended {
            Some(a) => {
                let mut more = process_obj_values(a);
                items.append(&mut more);
                assert(models(items@) =~= first + a@.map_values(|o: RawObj| raw_model(o)));
            },
            None => {
                assert(models(items@) =~= first + Seq::<ObjModel>::empty());
            },
        }
        JDB::from_objects(merge_objects(items), base_path, save_path)
    }
}

/// Saving a database whose ids are unique and which still holds every id
/// of the file it was loaded from, then loading that file with the saved
/// objects appended, gives back the same objects: each object read back is
/// one of the saved ones, each saved one is read back, and no id twice.
pub proof fn lemma_save_then_reload(base: Seq<ObjModel>, saved: Seq<ObjModel>, reloaded: Seq<ObjModel>)
    requires
        ids_unique(saved),
        forall|i: int| 0 <= i < base.len() ==> exists|j: int| 0 <= j < saved.len() && (#[trigger] saved[j]).id == (#[trigger] base[i]).id,
        keeps_last(base + saved, reloaded),
    ensures
        ids_unique(reloaded),
        forall|i: int| 0 <= i < reloaded.len() ==> saved.contains(#[trigger] reloaded[i]),
        forall|j: int| 0 <= j < saved.len() ==> reloaded.contains(#[trigger] saved[j]),
{
    let all = base + saved;
    let n = base.len();
    assert forall|k: int| #[trigger] is_last_of(all, k) implies n <= k by {
        if k < n {
            let j = choose|j: int| 0 <= j < saved.len() && (#[trigger] saved[j]).id == base[k].id;
            assert(all[n + j] == saved[j]);
            assert(all[k] == base[k]);
        }
    }
    assert forall|j: int| 0 <= j < saved.len() implies #[trigger] is_last_of(all, n + j) by {
        assert forall|m: int| n + j < m < all.len() implies #[trigger] all[m].id != all[n + j].id by {
            assert(all[m] == saved[m - n]);
            assert(all[n + j] == saved[j]);
        }
    }
    assert forall|i: int| 0 <= i < reloaded.len() implies saved.contains(#[trigger] reloaded[i]) by {
        let k = choose|k: int| #[trigger] is_last_of(all, k) && #[trigger] reloaded[i] == all[k];
        assert(is_last_of(all, k) && reloaded[i] == all[k]);
        assert(n <= k);
        assert(all[k] == saved[k - n]);
        assert(0 <= k - n < saved.len() && reloaded[i] == saved[k - n]);
    }
    assert forall|j: int| 0 <= j < saved.len() implies reloaded.contains(#[trigger] saved[j]) by {
        assert(is_last_of(all, n + j));
        assert(all[n + j] == saved[j]);
        let i = choose|i: int| 0 <= i < reloaded.len() && reloaded[i] == all[n + j];
        assert(0 <= i < reloaded.len() && reloaded[i] == saved[j]);
    }
}

/// A query made of one equals clause on field `k` matches exactly the
/// objects whose field `k` is present and has that very value: a value that
/// only contains it, or differs from it in case, does not match.
pub proof fn lemma_equals_clause_is_exact(k: Seq<char>, t: Seq<char>, data: Map<Seq<char>, Seq<char>>)
    ensures
        clause_holds(ClauseModel::Equals(t), data[k]) <==> t == data[k],
        query_matches(map![k => ClauseModel::Equals(t)], data) <==> (data.contains_key(k) && data[k] == t),
{
    let q = map![k => ClauseModel::Equals(t)];
    assert(q.contains_key(k));
}

/// A query made of one substring clause on field `k` matches exactly the
/// objects whose field `k` holds the value as a contiguous run of
/// characters somewhere in it.
pub proof fn lemma_substring_clause_is_contiguous(k: Seq<char>, t: Seq<char>, data: Map<Seq<char>, Seq<char>>)
    ensures
        query_matches(map![k => ClauseModel::Substring(t)], data) <==> (data.contains_key(k) && exists|i: int|
            0 <= i && i + t.len() <= data[k].len() && #[trigger] data[k].subrange(i, i + t.len()) == t),
{
    let q = map![k => ClauseModel::Substring(t)];
    assert(q.contains_key(k));
    if data.contains_key(k) {
        let v = data[k];
        if exists|i: int| 0 <= i && i + t.len() <= v.len() && #[trigger] v.subrange(i, i + t.len()) == t {
            let i = choose|i: int| 0 <= i && i + t.len() <= v.len() && #[trigger] v.subrange(i, i + t.len()) == t;
            assert(occurs_at(v, t, i));
        }
    }
}

/// A query made of one case-insensitive clause on field `k` compares the
/// lowercased field with the lowercased value: an `equalsi` clause matches
/// when they are equal, a `substringi` clause when the lowercased value runs
/// contiguously somewhere in the lowercased field.
pub proof fn lemma_case_insensitive_clauses(k: Seq<char>, t: Seq<char>, data: Map<Seq<char>, Seq<char>>)
    ensures
        query_matches(map![k => ClauseModel::EqualsI(t)], data) <==> (data.contains_key(k) && lowercase(data[k])
            == lowercase(t)),
        query_matches(map![k => ClauseModel::SubstringI(t)], data) <==> (data.contains_key(k) && exists|i: int|
            0 <= i && i + lowercase(t).len() <= lowercase(data[k]).len() && #[trigger] lowercase(data[k]).subrange(
                i,
                i + lowercase(t).len(),
            ) == lowercase(t)),
{
    assert(map![k => ClauseModel::EqualsI(t)].contains_key(k));
    assert(map![k => ClauseModel::SubstringI(t)].contains_key(k));
    if data.contains_key(k) {
        let v = lowercase(data[k]);
        let lt = lowercase(t);
        if exists|i: int| 0 <= i && i + lt.len() <= v.len() && #[trigger] v.subrange(i, i + lt.len()) == lt {
            let i = choose|i: int| 0 <= i && i + lt.len() <= v.len() && #[trigger] v.subrange(i, i + lt.len()) == lt;
            assert(occurs_at(v, lt, i));
        }
    }
}

/// An object matches a query exactly when it matches, one by one, the
/// one-clause queries made from each of its clauses: every clause must
/// hold, and a field a clause names must be present.
pub proof fn lemma_query_is_every_clause(q: Map<Seq<char>, ClauseModel>, data: Map<Seq<char>, Seq<char>>)
    ensures
        query_matches(q, data) <==> forall|k: Seq<char>|
            #[trigger] q.contains_key(k) ==> query_matches(map![k => q[k]], data),
{
    if forall|k: Seq<char>| #[trigger] q.contains_key(k) ==> query_matches(map![k => q[k]], data) {
        assert forall|k: Seq<char>| #[trigger] q.contains_key(k) implies data.contains_key(k) && clause_holds(
            q[k],
            data[k],
        ) by {
            assert(query_matches(map![k => q[k]], data));
            assert(map![k => q[k]].contains_key(k));
        }
    }
    if query_matches(q, data) {
        assert forall|k: Seq<char>| #[trigger] q.contains_key(k) implies query_matches(map![k => q[k]], data) by {
            assert forall|k2: Seq<char>| #[trigger] map![k => q[k]].contains_key(k2) implies data.contains_key(k2)
                && clause_holds(map![k => q[k]][k2], data[k2]) by {
                assert(k2 == k);
            }
        }
    }
}

} // verus!

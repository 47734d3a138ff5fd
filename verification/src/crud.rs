//! Grouping resolved operations into CRUD sets, one per resource.

use vstd::prelude::*;

use indexmap::IndexMap;

use crate::ordered_map::{
    crud_table, crud_table_new, crud_table_position, crud_table_get_index, crud_table_insert,
    crud_table_into_values, key_position, keys_unique, map_insert, lemma_key_position,
    lemma_insert_keeps_keys_unique,
};
use crate::resolve::{ResolvedOp, SpecResolvedOp, ops_view};
use crate::text::{str_eq, push_char, contains_char, after_last_slash};

verus! {

/// A group of operations that form a CRUD set for a resource.
#[derive(Debug)]
pub struct CrudGroup {
    pub name: String,
    pub create: Option<ResolvedOp>,
    pub read: Option<ResolvedOp>,
    pub update: Option<ResolvedOp>,
    pub delete: Option<ResolvedOp>,
    pub list: Option<ResolvedOp>,
}

pub struct SpecCrudGroup {
    pub name: Seq<char>,
    pub create: Option<SpecResolvedOp>,
    pub read: Option<SpecResolvedOp>,
    pub update: Option<SpecResolvedOp>,
    pub delete: Option<SpecResolvedOp>,
    pub list: Option<SpecResolvedOp>,
}

/// The view of an optional operation.
pub open spec fn opt_op_view(o: Option<ResolvedOp>) -> Option<SpecResolvedOp> {
    match o {
        Some(op) => Some(op@),
        None => None,
    }
}

impl View for CrudGroup {
    type V = SpecCrudGroup;

    open spec fn view(&self) -> SpecCrudGroup {
        SpecCrudGroup {
            name: self.name@,
            create: opt_op_view(self.create),
            read: opt_op_view(self.read),
            update: opt_op_view(self.update),
            delete: opt_op_view(self.delete),
            list: opt_op_view(self.list),
        }
    }
}

fn clone_opt_op(o: &Option<ResolvedOp>) -> (r: Option<ResolvedOp>)
    ensures
        opt_op_view(r) == opt_op_view(*o),
{
    match o {
        Some(op) => Some(op.clone()),
        None => None,
    }
}

impl Clone for CrudGroup {
    fn clone(&self) -> (r: Self)
        ensures
            r@ == self@,
    {
        CrudGroup {
            name: self.name.clone(),
            create: clone_opt_op(&self.create),
            read: clone_opt_op(&self.read),
            update: clone_opt_op(&self.update),
            delete: clone_opt_op(&self.delete),
            list: clone_opt_op(&self.list),
        }
    }
}

// ── Paths ───────────────────────────────────────────────────────────────

/// The index of the first `{` that opens a path segment, if any.
pub open spec fn param_start(s: Seq<char>) -> Option<int>
    decreases s.len(),
{
    if s.len() == 0 {
        None
    } else {
        match param_start(s.drop_last()) {
            Some(j) => Some(j),
            None => if s.last() == '{' && (s.len() == 1 || s[s.len() - 2] == '/') {
                Some(s.len() - 1)
            } else {
                None
            },
        }
    }
}

/// The path without its parameter segments: everything before the `/` that
/// precedes the first segment opening with `{`, or `/` when that is empty.
/// `/pets/{petId}/toys/{toyId}` becomes `/pets`.
pub open spec fn base_path(s: Seq<char>) -> Seq<char> {
    let base = match param_start(s) {
        Some(j) => if j == 0 {
            Seq::empty()
        } else {
            s.take(j - 1)
        },
        None => s,
    };
    if base.len() == 0 {
        "/"@
    } else {
        base
    }
}

/// The last non-empty `/`-separated segment, if there is one.
pub open spec fn last_segment(s: Seq<char>) -> Option<Seq<char>>
    decreases s.len(),
{
    if s.len() == 0 {
        None
    } else if s.last() == '/' {
        last_segment(s.drop_last())
    } else {
        Some(after_last_slash(s))
    }
}

/// The resource a path names: its last non-empty segment, or `root`.
/// `/pets` is `pets`, `/api/v1/users` is `users`.
pub open spec fn resource_name(s: Seq<char>) -> Seq<char> {
    match last_segment(s) {
        Some(seg) => seg,
        None => "root"@,
    }
}

/// A match at `i` after none before it is the first parameter segment.
pub proof fn lemma_param_start_prefix(s: Seq<char>, k: int)
    requires
        0 <= k <= s.len(),
        param_start(s.take(k)) is Some,
    ensures
        param_start(s) == param_start(s.take(k)),
    decreases s.len() - k,
{
    if k < s.len() {
        assert(s.take(k + 1).drop_last() =~= s.take(k));
        lemma_param_start_prefix(s, k + 1);
    } else {
        assert(s.take(k) =~= s);
    }
}

fn chars_of(s: &str) -> (r: Vec<char>)
    ensures
        r@ == s@,
{
    let n = s.unicode_len();
    let mut out: Vec<char> = Vec::new();
    let mut i: usize = 0;
    while i < n
        invariant
            n == s@.len(),
            i <= n,
            out@ == s@.take(i as int),
        decreases n - i,
    {
        out.push(s.get_char(i));
        assert(out@ =~= s@.take(i + 1));
        i = i + 1;
    }
    assert(s@.take(n as int) =~= s@);
    out
}

fn string_of(cs: &Vec<char>, from: usize, to: usize) -> (r: String)
    requires
        from <= to <= cs@.len(),
    ensures
        r@ == cs@.subrange(from as int, to as int),
{
    let mut out = String::new();
    let mut i: usize = from;
    while i < to
        invariant
            from <= i <= to,
            to <= cs@.len(),
            out@ == cs@.subrange(from as int, i as int),
        decreases to - i,
    {
        push_char(&mut out, cs[i]);
        assert(out@ =~= cs@.subrange(from as int, i + 1));
        i = i + 1;
    }
    out
}

/// The base path without parameter segments (see [`base_path`]).
pub fn extract_base_path(path: &str) -> (r: String)
    ensures
        r@ == base_path(path@),
{
    let cs = chars_of(path);
    let n = cs.len();
    let mut i: usize = 0;
    let mut found: Option<usize> = None;
    while i < n
        invariant
            n == cs@.len(),
            i <= n,
            found is None ==> param_start(cs@.take(i as int)) is None,
            found matches Some(j) ==> param_start(cs@) == Some(j as int) && j < n,
        decreases n - i,
    {
        if found.is_none() {
            proof {
                assert(cs@.take(i + 1).drop_last() =~= cs@.take(i as int));
            }
            if cs[i] == '{' && (i == 0 || cs[i - 1] == '/') {
                proof {
                    assert(cs@.take(i + 1).last() == cs@[i as int]);
                    if i > 0 {
                        assert(cs@.take(i + 1)[i - 1] == cs@[i - 1]);
                    }
                    lemma_param_start_prefix(cs@, i + 1);
                }
                found = Some(i);
            } else {
                proof {
                    assert(cs@.take(i + 1).last() == cs@[i as int]);
                    if i > 0 {
                        assert(cs@.take(i + 1)[i - 1] == cs@[i - 1]);
                    }
                }
            }
        }
        i = i + 1;
    }
    proof {
        assert(cs@.take(n as int) =~= cs@);
    }
    let base = match found {
        Some(j) => {
            if j == 0 {
                String::new()
            } else {
                string_of(&cs, 0, j - 1)
            }
        },
        None => string_of(&cs, 0, n),
    };
    proof {
        assert(cs@.subrange(0, n as int) =~= cs@);
        if let Some(j) = found {
            if j > 0 {
                assert(cs@.subrange(0, j - 1) =~= cs@.take(j - 1));
            }
        }
    }
    if base.unicode_len() == 0 {
        "/".to_owned()
    } else {
        base
    }
}

/// The resource a path names (see [`resource_name`]).
pub fn path_to_resource_name(path: &str) -> (r: String)
    ensures
        r@ == resource_name(path@),
{
    let cs = chars_of(path);
    let mut end: usize = cs.len();
    assert(cs@.take(end as int) =~= cs@);
    while end > 0 && cs[end - 1] == '/'
        invariant
            end <= cs@.len(),
            last_segment(cs@) == last_segment(cs@.take(end as int)),
        decreases end,
    {
        proof {
            assert(cs@.take(end as int).drop_last() =~= cs@.take(end - 1));
        }
        end = end - 1;
    }
    if end == 0 {
        proof {
            assert(cs@.take(0) =~= Seq::<char>::empty());
        }
        return "root".to_owned();
    }
    let mut start: usize = end;
    while start > 0 && cs[start - 1] != '/'
        invariant
            start <= end <= cs@.len(),
            after_last_slash(cs@.take(end as int)) == after_last_slash(cs@.take(start as int))
                + cs@.subrange(start as int, end as int),
        decreases start,
    {
        proof {
            let t = cs@.take(start as int);
            assert(t.drop_last() =~= cs@.take(start - 1));
            assert(t.last() == cs@[start - 1]);
            assert(cs@.subrange(start - 1, end as int) =~= seq![cs@[start - 1]] + cs@.subrange(
                start as int,
                end as int,
            ));
            assert(after_last_slash(t) == after_last_slash(cs@.take(start - 1)).push(cs@[start - 1]));
            assert(after_last_slash(cs@.take(start - 1)).push(cs@[start - 1]) + cs@.subrange(
                start as int,
                end as int,
            ) =~= after_last_slash(cs@.take(start - 1)) + cs@.subrange(start - 1, end as int));
        }
        start = start - 1;
    }
    proof {
        let t = cs@.take(start as int);
        if start > 0 {
            assert(t.last() == cs@[start - 1]);
        }
        assert(after_last_slash(t) =~= Seq::<char>::empty());
        assert(cs@.take(end as int).last() == cs@[end - 1]);
        assert(after_last_slash(cs@.take(end as int)) =~= cs@.subrange(start as int, end as int));
    }
    string_of(&cs, start, end)
}


// ── Grouping ────────────────────────────────────────────────────────────

/// The resource an operation belongs to: the resource named by the base of
/// its path, so `/pets` and `/pets/{id}` share one.
pub open spec fn resource_of(path: Seq<char>) -> Seq<char> {
    resource_name(base_path(path))
}

/// A group with no operations.
pub open spec fn empty_group(name: Seq<char>) -> SpecCrudGroup {
    SpecCrudGroup { name, create: None, read: None, update: None, delete: None, list: None }
}

/// The group with an operation placed in its slot: `get` on a path without
/// a parameter is the list, `get` otherwise the read, `post` the create,
/// `put` or `patch` the update, `delete` the delete; any other method
/// changes nothing.
pub open spec fn with_op(g: SpecCrudGroup, op: SpecResolvedOp) -> SpecCrudGroup {
    let is_collection = !op.path.contains('{');
    if op.method == "get"@ && is_collection {
        SpecCrudGroup { list: Some(op), ..g }
    } else if op.method == "get"@ {
        SpecCrudGroup { read: Some(op), ..g }
    } else if op.method == "post"@ {
        SpecCrudGroup { create: Some(op), ..g }
    } else if op.method == "put"@ || op.method == "patch"@ {
        SpecCrudGroup { update: Some(op), ..g }
    } else if op.method == "delete"@ {
        SpecCrudGroup { delete: Some(op), ..g }
    } else {
        g
    }
}

/// The groups of some operations, keyed by resource in order of first
/// appearance: each operation in turn is placed into its resource's group,
/// a new group being added when the resource is new.
pub open spec fn crud_table_of(ops: Seq<SpecResolvedOp>) -> Seq<(Seq<char>, SpecCrudGroup)>
    decreases ops.len(),
{
    if ops.len() == 0 {
        Seq::empty()
    } else {
        let t = crud_table_of(ops.drop_last());
        let op = ops.last();
        let name = resource_of(op.path);
        let g = match key_position(t, name) {
            Some(i) => t[i].1,
            None => empty_group(name),
        };
        map_insert(t, name, with_op(g, op))
    }
}

/// The groups of some operations, in order of first appearance.
pub open spec fn crud_groups(ops: Seq<SpecResolvedOp>) -> Seq<SpecCrudGroup> {
    crud_table_of(ops).map_values(|e: (Seq<char>, SpecCrudGroup)| e.1)
}

/// The view of each group.
pub open spec fn groups_view(gs: Seq<CrudGroup>) -> Seq<SpecCrudGroup> {
    gs.map_values(|g: CrudGroup| g@)
}

/// Groups resolved operations into CRUD sets by HTTP method and path
/// (see [`crud_groups`]); operations on `/pets` and `/pets/{id}` share the
/// group `pets`, and a later operation for a slot replaces an earlier one.
#[must_use]
pub fn group_crud(ops: &[ResolvedOp]) -> (r: Vec<CrudGroup>)
    ensures
        groups_view(r@) == crud_groups(ops_view(ops@)),
{
    let mut groups = crud_table_new();
    let mut i: usize = 0;
    while i < ops.len()
        invariant
            i <= ops@.len(),
            crud_table(groups) == crud_table_of(ops_view(ops@.take(i as int))),
        decreases ops@.len() - i,
    {
        proof {
            assert(ops_view(ops@.take(i + 1)).drop_last() =~= ops_view(ops@.take(i as int)));
            assert(ops_view(ops@.take(i + 1)).last() == ops@[i as int]@);
        }
        let op = &ops[i];
        let base = extract_base_path(op.path.as_str());
        let name = path_to_resource_name(base.as_str());
        let is_collection = !contains_char(op.path.as_str(), '{');
        let mut group = match crud_table_position(&groups, name.as_str()) {
            Some(k) => {
                proof {
                    lemma_key_position(crud_table(groups), name@);
                }
                match crud_table_get_index(&groups, k) {
                    Some(g) => g.clone(),
                    None => {
                        assert(false);
                        CrudGroup {
                            name: name.clone(),
                            create: None,
                            read: None,
                            update: None,
                            delete: None,
                            list: None,
                        }
                    },
                }
            },
            None => CrudGroup {
                name: name.clone(),
                create: None,
                read: None,
                update: None,
                delete: None,
                list: None,
            },
        };
        let ghost t = crud_table(groups);
        let ghost g0 = match key_position(t, name@) {
            Some(k) => t[k].1,
            None => empty_group(name@),
        };
        assert(group@ == g0);
        assert(name@ == resource_of(op@.path));
        let method = op.method.as_str();
        if str_eq(method, "get") && is_collection {
            group.list = Some(op.clone());
        } else if str_eq(method, "get") {
            group.read = Some(op.clone());
        } else if str_eq(method, "post") {
            group.create = Some(op.clone());
        } else if str_eq(method, "put") || str_eq(method, "patch") {
            group.update = Some(op.clone());
        } else if str_eq(method, "delete") {
            group.delete = Some(op.clone());
        }
        assert(group@ == with_op(g0, op@));
        crud_table_insert(&mut groups, name, group);
        i = i + 1;
    }
    assert(ops@.take(ops@.len() as int) =~= ops@);
    let r = crud_table_into_values(groups);
    assert(groups_view(r@) =~= crud_groups(ops_view(ops@)));
    r
}

// ── Laws of grouping ────────────────────────────────────────────────────

/// A path with no `{` has no parameter segment.
pub proof fn lemma_no_brace_no_param(s: Seq<char>)
    requires
        !s.contains('{'),
    ensures
        param_start(s) is None,
    decreases s.len(),
{
    if s.len() > 0 {
        assert(!s.drop_last().contains('{')) by {
            if s.drop_last().contains('{') {
                let k = choose|k: int| 0 <= k < s.drop_last().len() && s.drop_last()[k] == '{';
                assert(s[k] == '{');
            }
        }
        lemma_no_brace_no_param(s.drop_last());
        assert(s.last() == s[s.len() - 1]);
    }
}

/// A collection path and any path that continues it with a parameter
/// segment name the same resource, so `/pets` and `/pets/{petId}` share a
/// group.
pub proof fn lemma_parameter_path_shares_resource(p: Seq<char>, q: Seq<char>)
    requires
        !p.contains('{'),
    ensures
        resource_of(p + "/{"@ + q) == resource_of(p),
        base_path(p + "/{"@ + q) == base_path(p),
{
    reveal_strlit("/{");
    let s = p + "/{"@ + q;
    let n: int = p.len() as int;
    let head = s.take(n + 2);
    assert(head.drop_last() =~= p.push('/'));
    assert(!p.push('/').contains('{')) by {
        if p.push('/').contains('{') {
            let k = choose|k: int| 0 <= k < p.push('/').len() && p.push('/')[k] == '{';
            if k < n {
                assert(p[k] == '{');
            }
        }
    }
    lemma_no_brace_no_param(p.push('/'));
    assert(head.last() == '{');
    assert(head[head.len() - 2] == '/');
    assert(param_start(head) == Some(n + 1));
    lemma_param_start_prefix(s, n + 2);
    lemma_no_brace_no_param(p);
    assert(s.take(n) =~= p);
}

/// Whether an optional slot is empty or holds one of `ops` that belongs to
/// the resource `name`.
pub open spec fn slot_belongs(slot: Option<SpecResolvedOp>, name: Seq<char>, ops: Seq<SpecResolvedOp>) -> bool {
    match slot {
        Some(op) => resource_of(op.path) == name && ops.contains(op),
        None => true,
    }
}

/// Whether every filled slot of a group holds one of `ops` that belongs to
/// the group's resource.
pub open spec fn group_belongs(g: SpecCrudGroup, ops: Seq<SpecResolvedOp>) -> bool {
    &&& slot_belongs(g.create, g.name, ops)
    &&& slot_belongs(g.read, g.name, ops)
    &&& slot_belongs(g.update, g.name, ops)
    &&& slot_belongs(g.delete, g.name, ops)
    &&& slot_belongs(g.list, g.name, ops)
}

proof fn lemma_slot_belongs_grows(slot: Option<SpecResolvedOp>, name: Seq<char>, ops: Seq<SpecResolvedOp>)
    requires
        ops.len() > 0,
        slot_belongs(slot, name, ops.drop_last()),
    ensures
        slot_belongs(slot, name, ops),
{
    if let Some(op) = slot {
        let k = choose|k: int| 0 <= k < ops.drop_last().len() && ops.drop_last()[k] == op;
        assert(ops[k] == op);
    }
}

/// One step of the grouping table: the table of all but the last operation,
/// with the last one placed into its resource's group.
proof fn lemma_crud_table_step(ops: Seq<SpecResolvedOp>)
    requires
        ops.len() > 0,
    ensures
        ({
            let t = crud_table_of(ops.drop_last());
            let op = ops.last();
            let name = resource_of(op.path);
            let g = match key_position(t, name) {
                Some(i) => t[i].1,
                None => empty_group(name),
            };
            crud_table_of(ops) == map_insert(t, name, with_op(g, op))
        }),
{
}

/// Each entry of the grouping table is a group named by its key whose
/// filled slots hold operations of that resource, and keys do not repeat.
proof fn lemma_crud_table_entries(ops: Seq<SpecResolvedOp>)
    ensures
        keys_unique(crud_table_of(ops)),
        forall|i: int| #![trigger crud_table_of(ops)[i]]
            0 <= i < crud_table_of(ops).len() ==> crud_table_of(ops)[i].1.name
                == crud_table_of(ops)[i].0 && group_belongs(crud_table_of(ops)[i].1, ops),
    decreases ops.len(),
{
    if ops.len() > 0 {
        let prev = ops.drop_last();
        lemma_crud_table_entries(prev);
        lemma_crud_table_step(ops);
        let t = crud_table_of(prev);
        let op = ops.last();
        let name = resource_of(op.path);
        lemma_key_position(t, name);
        let g = match key_position(t, name) {
            Some(i) => t[i].1,
            None => empty_group(name),
        };
        let ng = with_op(g, op);
        let t2 = map_insert(t, name, ng);
        lemma_insert_keeps_keys_unique(t, name, ng);
        assert(ops[ops.len() - 1] == op);
        assert(ops.contains(op));
        lemma_slot_belongs_grows(g.create, name, ops);
        lemma_slot_belongs_grows(g.read, name, ops);
        lemma_slot_belongs_grows(g.update, name, ops);
        lemma_slot_belongs_grows(g.delete, name, ops);
        lemma_slot_belongs_grows(g.list, name, ops);
        assert(group_belongs(ng, ops));
        assert forall|i: int| 0 <= i < t2.len() implies #[trigger] t2[i].1.name == t2[i].0
            && group_belongs(t2[i].1, ops) by {
            if t2[i].0 != name {
                assert(i < t.len() && t2[i] == t[i]);
                let g2 = t[i].1;
                lemma_slot_belongs_grows(g2.create, g2.name, ops);
                lemma_slot_belongs_grows(g2.read, g2.name, ops);
                lemma_slot_belongs_grows(g2.update, g2.name, ops);
                lemma_slot_belongs_grows(g2.delete, g2.name, ops);
                lemma_slot_belongs_grows(g2.list, g2.name, ops);
            }
        }
    }
}

/// The keys of the grouping table are exactly the resources of the
/// operations.
proof fn lemma_crud_table_keys(ops: Seq<SpecResolvedOp>)
    ensures
        forall|i: int| #![trigger crud_table_of(ops)[i]]
            0 <= i < crud_table_of(ops).len() ==> exists|k: int|
                0 <= k < ops.len() && resource_of(#[trigger] ops[k].path)
                    == crud_table_of(ops)[i].0,
        forall|k: int| #![trigger ops[k]]
            0 <= k < ops.len() ==> exists|i: int|
                0 <= i < crud_table_of(ops).len() && #[trigger] crud_table_of(ops)[i].0
                    == resource_of(ops[k].path),
    decreases ops.len(),
{
    if ops.len() > 0 {
        let prev = ops.drop_last();
        lemma_crud_table_keys(prev);
        lemma_crud_table_step(ops);
        let t = crud_table_of(prev);
        let op = ops.last();
        let name = resource_of(op.path);
        lemma_key_position(t, name);
        let g = match key_position(t, name) {
            Some(i) => t[i].1,
            None => empty_group(name),
        };
        let t2 = map_insert(t, name, with_op(g, op));
        let last = ops.len() - 1;
        assert(ops[last] == op);
        assert forall|i: int| 0 <= i < t2.len() implies exists|k: int|
            0 <= k < ops.len() && resource_of(#[trigger] ops[k].path) == #[trigger] t2[i].0 by {
            if t2[i].0 == name {
                assert(resource_of(ops[last].path) == t2[i].0);
            } else {
                assert(i < t.len() && t2[i] == t[i]);
                let k = choose|k: int| 0 <= k < prev.len() && resource_of(#[trigger] prev[k].path) == t[i].0;
                assert(ops[k] == prev[k]);
            }
        }
        assert forall|k: int| 0 <= k < ops.len() implies exists|i: int|
            0 <= i < t2.len() && #[trigger] t2[i].0 == resource_of(#[trigger] ops[k].path) by {
            if k == last {
                match key_position(t, name) {
                    Some(i) => { assert(t2[i].0 == name); },
                    None => { assert(t2[t.len() as int].0 == name); },
                }
            } else {
                assert(prev[k] == ops[k]);
                let i = choose|i: int| 0 <= i < t.len() && #[trigger] t[i].0 == resource_of(prev[k].path);
                match key_position(t, name) {
                    Some(j) => {
                        if i == j {
                            assert(t2[i].0 == name);
                        } else {
                            assert(t2[i] == t[i]);
                        }
                    },
                    None => { assert(t2[i] == t[i]); },
                }
            }
        }
    }
}

/// Grouping yields one group per resource: no two groups share a name, the
/// names are exactly the resources of the operations, and every filled
/// slot of a group holds one of the operations, of that group's resource.
pub proof fn lemma_one_group_per_resource(ops: Seq<SpecResolvedOp>)
    ensures
        forall|i: int, j: int|
            0 <= i < j < crud_groups(ops).len() ==> crud_groups(ops)[i].name
                != crud_groups(ops)[j].name,
        forall|i: int|
            0 <= i < crud_groups(ops).len() ==> group_belongs(#[trigger] crud_groups(ops)[i], ops),
        forall|k: int|
            0 <= k < ops.len() ==> exists|i: int|
                0 <= i < crud_groups(ops).len() && #[trigger] crud_groups(ops)[i].name
                    == resource_of(#[trigger] ops[k].path),
        forall|i: int|
            0 <= i < crud_groups(ops).len() ==> exists|k: int|
                0 <= k < ops.len() && resource_of(#[trigger] ops[k].path)
                    == #[trigger] crud_groups(ops)[i].name,
{
    lemma_crud_table_entries(ops);
    lemma_crud_table_keys(ops);
    let t = crud_table_of(ops);
    let gs = crud_groups(ops);
    assert forall|i: int| 0 <= i < gs.len() implies #[trigger] gs[i] == t[i].1 && gs[i].name
        == t[i].0 by {
        assert(t[i].1.name == t[i].0);
    }
    assert forall|k: int| 0 <= k < ops.len() implies exists|i: int|
        0 <= i < gs.len() && #[trigger] gs[i].name == resource_of(#[trigger] ops[k].path) by {
        let i = choose|i: int| 0 <= i < t.len() && #[trigger] t[i].0 == resource_of(ops[k].path);
        assert(gs[i].name == t[i].0);
    }
}

/// Whether each filled slot of a group holds an operation its method and
/// path belong in: the list a `get` on a path with no `{`, the read a `get`
/// on a path with a `{` anywhere, the create a `post`, the update a `put` or
/// `patch`, the delete a `delete`.
pub open spec fn slots_by_method(g: SpecCrudGroup) -> bool {
    &&& (g.list matches Some(o) ==> o.method == "get"@ && !o.path.contains('{'))
    &&& (g.read matches Some(o) ==> o.method == "get"@ && o.path.contains('{'))
    &&& (g.create matches Some(o) ==> o.method == "post"@)
    &&& (g.update matches Some(o) ==> o.method == "put"@ || o.method == "patch"@)
    &&& (g.delete matches Some(o) ==> o.method == "delete"@)
}

proof fn lemma_crud_table_slots(ops: Seq<SpecResolvedOp>)
    ensures
        forall|i: int|
            0 <= i < crud_table_of(ops).len() ==> slots_by_method(#[trigger] crud_table_of(ops)[i].1),
    decreases ops.len(),
{
    if ops.len() > 0 {
        let prev = ops.drop_last();
        lemma_crud_table_slots(prev);
        lemma_crud_table_step(ops);
        let t = crud_table_of(prev);
        let op = ops.last();
        let name = resource_of(op.path);
        lemma_key_position(t, name);
        let g = match key_position(t, name) {
            Some(i) => t[i].1,
            None => empty_group(name),
        };
        assert(slots_by_method(g));
        assert(slots_by_method(with_op(g, op)));
        let t2 = map_insert(t, name, with_op(g, op));
        assert forall|i: int| 0 <= i < t2.len() implies slots_by_method(#[trigger] t2[i].1) by {
            if t2[i].0 != name {
                assert(i < t.len() && t2[i] == t[i]);
            }
        }
    }
}

/// A slot only ever holds an operation that belongs in it: in particular a
/// `get` whose path has a `{` anywhere is never a group's list, and only a
/// `get` on a path with no `{` is.
pub proof fn lemma_slots_hold_their_methods(ops: Seq<SpecResolvedOp>)
    ensures
        forall|i: int|
            0 <= i < crud_groups(ops).len() ==> slots_by_method(#[trigger] crud_groups(ops)[i]),
{
    lemma_crud_table_slots(ops);
    assert forall|i: int| 0 <= i < crud_groups(ops).len() implies slots_by_method(
        #[trigger] crud_groups(ops)[i],
    ) by {
        assert(crud_groups(ops)[i] == crud_table_of(ops)[i].1);
    }
}

/// The last operation lands in its resource's group, in the slot its
/// method and path pick: a `get` on a path with a `{` anywhere is the read,
/// a `get` on a path with none the list, a `post` the create, a `put` or
/// `patch` the update, a `delete` the delete.
pub proof fn lemma_last_operation_lands(ops: Seq<SpecResolvedOp>)
    requires
        ops.len() > 0,
    ensures
        exists|i: int|
            #![trigger crud_groups(ops)[i]]
            0 <= i < crud_groups(ops).len() && crud_groups(ops)[i].name == resource_of(
                ops.last().path,
            ) && {
                let g = crud_groups(ops)[i];
                let op = ops.last();
                &&& (op.method == "get"@ && op.path.contains('{')) ==> g.read == Some(op)
                &&& (op.method == "get"@ && !op.path.contains('{')) ==> g.list == Some(op)
                &&& op.method == "post"@ ==> g.create == Some(op)
                &&& (op.method == "put"@ || op.method == "patch"@) ==> g.update == Some(op)
                &&& op.method == "delete"@ ==> g.delete == Some(op)
            },
{
    reveal_strlit("get");
    reveal_strlit("post");
    reveal_strlit("put");
    reveal_strlit("patch");
    reveal_strlit("delete");
    assert("post"@.len() != "get"@.len());
    assert("put"@[0] != "get"@[0] && "patch"@[0] != "get"@[0]);
    assert("put"@.len() != "post"@.len() && "patch"@.len() != "post"@.len());
    assert("delete"@.len() != "get"@.len() && "delete"@.len() != "post"@.len());
    assert("delete"@.len() != "put"@.len() && "delete"@.len() != "patch"@.len());
    let prev = ops.drop_last();
    lemma_crud_table_step(ops);
    let t = crud_table_of(prev);
    let op = ops.last();
    let name = resource_of(op.path);
    lemma_key_position(t, name);
    let g0 = match key_position(t, name) {
        Some(i) => t[i].1,
        None => empty_group(name),
    };
    let ng = with_op(g0, op);
    let t2 = map_insert(t, name, ng);
    let i = match key_position(t, name) {
        Some(j) => j,
        None => t.len() as int,
    };
    assert(0 <= i < t2.len());
    assert(t2[i] == (name, ng));
    assert(crud_groups(ops).len() == t2.len());
    assert(crud_groups(ops)[i] == ng);
    lemma_crud_table_entries(prev);
    assert(ng.name == name);
    assert((op.method == "get"@ && op.path.contains('{')) ==> ng.read == Some(op));
    assert((op.method == "get"@ && !op.path.contains('{')) ==> ng.list == Some(op));
    assert(op.method == "post"@ ==> ng.create == Some(op));
    assert((op.method == "put"@ || op.method == "patch"@) ==> ng.update == Some(op));
    assert(op.method == "delete"@ ==> ng.delete == Some(op));
}

/// Customizes how operations are grouped into CRUD sets.
pub trait CrudGrouper: Send + Sync {
    /// Group operations into CRUD sets.
    fn group(&self, ops: &[ResolvedOp]) -> Vec<CrudGroup>;
}

/// The default grouper, by HTTP method and path patterns.
pub struct PathBasedGrouper;

impl CrudGrouper for PathBasedGrouper {
    fn group(&self, ops: &[ResolvedOp]) -> (r: Vec<CrudGroup>)
        ensures
            groups_view(r@) == crud_groups(ops_view(ops@)),
    {
        group_crud(ops)
    }
}

} // verus!

//! Following `$ref` chains through a document's component schemas without
//! looping.

use vstd::prelude::*;

use crate::field_type::{FieldType, SpecFieldType, schema_field_type, schema_to_field_type};
use crate::openapi::{OpenApiSpec, Schema, entry_index, lookup, ref_name};
use crate::text::{str_eq, after_last_slash};

verus! {

/// The component schema a pointer names, if the document has one.
pub open spec fn schema_at(doc: OpenApiSpec, pointer: Seq<char>) -> Option<Schema> {
    lookup(doc.component_schemas(), after_last_slash(pointer))
}

/// The characters of each pointer on a resolution path.
pub open spec fn path_view(stack: Seq<String>) -> Seq<Seq<char>> {
    stack.map_values(|s: String| s@)
}

/// `hops` is the `$ref` chain from `start`: each pointer names a component
/// schema, each schema but the last is itself a bare `$ref` to the next
/// pointer, the last is not a `$ref`, and no pointer repeats or is already on
/// the resolution path `path`.
pub open spec fn is_ref_chain(
    doc: OpenApiSpec,
    path: Seq<Seq<char>>,
    start: Seq<char>,
    hops: Seq<Seq<char>>,
) -> bool {
    &&& hops.len() > 0
    &&& hops[0] == start
    &&& forall|i: int| 0 <= i < hops.len() ==> !path.contains(#[trigger] hops[i])
    &&& forall|i: int, j: int| 0 <= i < j < hops.len() ==> hops[i] != hops[j]
    &&& forall|i: int|
        0 <= i < hops.len() - 1 ==> (#[trigger] schema_at(doc, hops[i]) matches Some(t)
            && t.ref_path matches Some(n) && n@ == hops[i + 1])
    &&& schema_at(doc, hops.last()) matches Some(t) && t.ref_path is None
}

/// A run of distinct indices below `n` has at most `n` members.
pub proof fn lemma_distinct_indices_bounded(ks: Seq<int>, n: int)
    requires
        0 <= n,
        forall|i: int| 0 <= i < ks.len() ==> 0 <= #[trigger] ks[i] < n,
        forall|i: int, j: int| 0 <= i < j < ks.len() ==> ks[i] != ks[j],
    ensures
        ks.len() <= n,
{
    assert(ks.no_duplicates());
    ks.unique_seq_to_set();
    vstd::set_lib::lemma_int_range(0, n);
    assert(ks.to_set().subset_of(vstd::set_lib::set_int_range(0, n)));
    vstd::set_lib::lemma_len_subset(ks.to_set(), vstd::set_lib::set_int_range(0, n));
}

fn on_path(stack: &Vec<String>, pointer: &str) -> (r: bool)
    ensures
        r == path_view(stack@).contains(pointer@),
{
    let mut i: usize = 0;
    while i < stack.len()
        invariant
            i <= stack@.len(),
            forall|j: int| 0 <= j < i ==> stack@[j]@ != pointer@,
        decreases stack@.len() - i,
    {
        if str_eq(stack[i].as_str(), pointer) {
            assert(path_view(stack@)[i as int] == pointer@);
            return true;
        }
        i = i + 1;
    }
    proof {
        if path_view(stack@).contains(pointer@) {
            let j = choose|j: int| 0 <= j < path_view(stack@).len() && path_view(stack@)[j] == pointer@;
            assert(stack@[j]@ == pointer@);
        }
    }
    false
}


/// The pointer after hop `i`: the next hop, or `cur` after the last one.
pub open spec fn next_hop(hops: Seq<Seq<char>>, cur: Seq<char>, i: int) -> Seq<char> {
    if i + 1 < hops.len() {
        hops[i + 1]
    } else {
        cur
    }
}

/// `hops` followed by `cur` is how a `$ref` chain from `start` begins.
#[verifier::opaque]
pub open spec fn chain_prefix(
    doc: OpenApiSpec,
    path: Seq<Seq<char>>,
    start: Seq<char>,
    hops: Seq<Seq<char>>,
    cur: Seq<char>,
) -> bool {
    &&& hops.len() == 0 ==> cur == start
    &&& hops.len() > 0 ==> hops[0] == start
    &&& forall|i: int| 0 <= i < hops.len() ==> !path.contains(#[trigger] hops[i])
    &&& forall|i: int, j: int| 0 <= i < j < hops.len() ==> hops[i] != hops[j]
    &&& forall|i: int|
        0 <= i < hops.len() ==> (#[trigger] schema_at(doc, hops[i]) matches Some(t)
            && t.ref_path matches Some(x) && x@ == next_hop(hops, cur, i))
}

/// Every `$ref` chain from `start` begins with `hops` followed by `cur`.
#[verifier::opaque]
pub open spec fn chains_extend(
    doc: OpenApiSpec,
    path: Seq<Seq<char>>,
    start: Seq<char>,
    hops: Seq<Seq<char>>,
    cur: Seq<char>,
) -> bool {
    forall|c: Seq<Seq<char>>|
        #[trigger] is_ref_chain(doc, path, start, c) ==> begins_with(c, hops, cur)
}

/// `c` begins with `hops` followed by `cur`.
pub open spec fn begins_with(c: Seq<Seq<char>>, hops: Seq<Seq<char>>, cur: Seq<char>) -> bool {
    c.len() > hops.len() && c.subrange(0, hops.len() as int) == hops && c[hops.len() as int] == cur
}

/// `ks` holds, for each hop, the index of the component schema it names.
#[verifier::opaque]
pub open spec fn hop_indices(doc: OpenApiSpec, hops: Seq<Seq<char>>, ks: Seq<int>) -> bool {
    &&& ks.len() == hops.len()
    &&& forall|i: int|
        0 <= i < hops.len() ==> 0 <= #[trigger] ks[i] < doc.component_schemas().len()
            && entry_index(doc.component_schemas(), after_last_slash(hops[i])) == Some(ks[i])
}

/// No chain exists once the next pointer is already on the path or the chain.
pub proof fn lemma_cycle_ends(
    doc: OpenApiSpec,
    path: Seq<Seq<char>>,
    start: Seq<char>,
    hops: Seq<Seq<char>>,
    cur: Seq<char>,
)
    requires
        chains_extend(doc, path, start, hops, cur),
        (path + hops).contains(cur),
    ensures
        forall|c: Seq<Seq<char>>| !is_ref_chain(doc, path, start, c),
{
    reveal(chains_extend);
    assert forall|c: Seq<Seq<char>>| !is_ref_chain(doc, path, start, c) by {
        if is_ref_chain(doc, path, start, c) {
            assert(c.subrange(0, hops.len() as int) == hops);
            let m = hops.len() as int;
            let j = choose|j: int| 0 <= j < (path + hops).len() && (path + hops)[j] == cur;
            if j < path.len() {
                assert(path.contains(c[m]));
            } else {
                assert(c.subrange(0, m)[j - path.len()] == c[j - path.len()]);
                assert(c[j - path.len()] == c[m]);
            }
        }
    }
}

/// No chain exists once the next pointer names no component schema.
pub proof fn lemma_dangling_ends(
    doc: OpenApiSpec,
    path: Seq<Seq<char>>,
    start: Seq<char>,
    hops: Seq<Seq<char>>,
    cur: Seq<char>,
)
    requires
        chains_extend(doc, path, start, hops, cur),
        schema_at(doc, cur) is None,
    ensures
        forall|c: Seq<Seq<char>>| !is_ref_chain(doc, path, start, c),
{
    reveal(chains_extend);
    assert forall|c: Seq<Seq<char>>| !is_ref_chain(doc, path, start, c) by {
        if is_ref_chain(doc, path, start, c) {
            let m = hops.len() as int;
            assert(c.subrange(0, m) == hops);
            if m < c.len() - 1 {
                assert(schema_at(doc, c[m]) is Some);
            } else {
                assert(c.last() == c[m]);
            }
        }
    }
}

/// Following one more `$ref` keeps the chain's prefix a prefix.
pub proof fn lemma_prefix_step(
    doc: OpenApiSpec,
    path: Seq<Seq<char>>,
    start: Seq<char>,
    hops: Seq<Seq<char>>,
    cur: Seq<char>,
    t: Schema,
    next: Seq<char>,
)
    requires
        chain_prefix(doc, path, start, hops, cur),
        !(path + hops).contains(cur),
        schema_at(doc, cur) == Some(t),
        t.ref_path matches Some(x) && x@ == next,
    ensures
        chain_prefix(doc, path, start, hops.push(cur), next),
{
    reveal(chain_prefix);
    let h = hops.push(cur);
    assert forall|i: int| 0 <= i < h.len() implies !path.contains(#[trigger] h[i]) by {
        if i == hops.len() {
            if path.contains(cur) {
                let j = choose|j: int| 0 <= j < path.len() && path[j] == cur;
                assert((path + hops)[j] == cur);
            }
        }
    }
    assert forall|i: int, j: int| 0 <= i < j < h.len() implies h[i] != h[j] by {
        if j == hops.len() {
            assert((path + hops)[path.len() + i] == hops[i]);
        }
    }
    assert forall|i: int| 0 <= i < h.len() implies (#[trigger] schema_at(doc, h[i]) matches Some(
        u,
    ) && u.ref_path matches Some(x) && x@ == next_hop(h, next, i)) by {
        if i < hops.len() {
            assert(h[i] == hops[i]);
            assert(next_hop(h, next, i) == next_hop(hops, cur, i));
        }
    }
}

/// Following one more `$ref` keeps every chain an extension of the prefix.
#[verifier::spinoff_prover]
pub proof fn lemma_extend_step(
    doc: OpenApiSpec,
    path: Seq<Seq<char>>,
    start: Seq<char>,
    hops: Seq<Seq<char>>,
    cur: Seq<char>,
    t: Schema,
    next: Seq<char>,
)
    requires
        chains_extend(doc, path, start, hops, cur),
        schema_at(doc, cur) == Some(t),
        t.ref_path matches Some(x) && x@ == next,
    ensures
        chains_extend(doc, path, start, hops.push(cur), next),
{
    reveal(chains_extend);
    let h = hops.push(cur);
    assert forall|c: Seq<Seq<char>>| #[trigger] is_ref_chain(doc, path, start, c) implies begins_with(
        c,
        h,
        next,
    ) by {
        let m = hops.len() as int;
        assert(is_ref_chain(doc, path, start, c));
        assert(c.subrange(0, hops.len() as int) == hops);
        assert(c.len() > m);
        assert(c[m] == cur);
        if c.len() == m + 1 {
            assert(c.last() == c[m]);
            assert(schema_at(doc, c.last()) matches Some(u) && u.ref_path is None);
        }
        assert(c.len() > m + 1);
        assert(schema_at(doc, c[m]) matches Some(u) && u.ref_path matches Some(x) && x@ == c[m + 1]);
        assert(c.subrange(0, m + 1) =~= h) by {
            assert forall|i: int| 0 <= i < m + 1 implies c.subrange(0, m + 1)[i] == h[i] by {
                if i < m {
                    assert(c.subrange(0, m)[i] == hops[i]);
                }
            }
        }
    }
    assert(chains_extend(doc, path, start, h, next));
}

/// Recording the index of the schema a new hop names keeps `hop_indices`.
pub proof fn lemma_index_step(doc: OpenApiSpec, hops: Seq<Seq<char>>, ks: Seq<int>, cur: Seq<char>)
    requires
        hop_indices(doc, hops, ks),
        schema_at(doc, cur) is Some,
    ensures
        hop_indices(
            doc,
            hops.push(cur),
            ks.push(entry_index(doc.component_schemas(), after_last_slash(cur))->0),
        ),
{
    reveal(hop_indices);
    let entries = doc.component_schemas();
    let key = after_last_slash(cur);
    let k = entry_index(entries, key)->0;
    crate::openapi::lemma_entry_index(entries, key);
    assert(0 <= k < entries.len());
    let h = hops.push(cur);
    let ks2 = ks.push(k);
    assert forall|i: int| 0 <= i < h.len() implies 0 <= #[trigger] ks2[i] < entries.len()
        && entry_index(entries, after_last_slash(h[i])) == Some(ks2[i]) by {
        if i < hops.len() {
            assert(ks2[i] == ks[i]);
            assert(h[i] == hops[i]);
        }
    }
}

/// A pointer naming a schema that is not a `$ref` completes the chain.
pub proof fn lemma_chain_ends_here(
    doc: OpenApiSpec,
    path: Seq<Seq<char>>,
    start: Seq<char>,
    hops: Seq<Seq<char>>,
    cur: Seq<char>,
    t: Schema,
)
    requires
        chain_prefix(doc, path, start, hops, cur),
        !(path + hops).contains(cur),
        schema_at(doc, cur) == Some(t),
        t.ref_path is None,
    ensures
        is_ref_chain(doc, path, start, hops.push(cur)),
{
    reveal(chain_prefix);
    let h = hops.push(cur);
    assert forall|i: int| 0 <= i < h.len() implies !path.contains(#[trigger] h[i]) by {
        if i == hops.len() {
            if path.contains(cur) {
                let j = choose|j: int| 0 <= j < path.len() && path[j] == cur;
                assert((path + hops)[j] == cur);
            }
        }
    }
    assert forall|i: int, j: int| 0 <= i < j < h.len() implies h[i] != h[j] by {
        if j == hops.len() {
            assert((path + hops)[path.len() + i] == hops[i]);
        }
    }
    assert forall|i: int| 0 <= i < h.len() - 1 implies (#[trigger] schema_at(doc, h[i]) matches Some(
        u,
    ) && u.ref_path matches Some(x) && x@ == h[i + 1]) by {
        assert(schema_at(doc, hops[i]) matches Some(u) && u.ref_path matches Some(x) && x@
            == next_hop(hops, cur, i));
    }
}

/// The hops of a chain name distinct component schemas, so a chain that has
/// not yet closed a cycle has at most as many hops as there are schemas.
pub proof fn lemma_hops_bounded(
    doc: OpenApiSpec,
    path: Seq<Seq<char>>,
    start: Seq<char>,
    hops: Seq<Seq<char>>,
    cur: Seq<char>,
    ks: Seq<int>,
)
    requires
        chain_prefix(doc, path, start, hops, cur),
        hop_indices(doc, hops, ks),
        !(path + hops).contains(cur),
    ensures
        hops.len() <= doc.component_schemas().len(),
{
    reveal(chain_prefix);
    reveal(hop_indices);
    let entries = doc.component_schemas();
    assert forall|i: int, j: int| 0 <= i < j < ks.len() implies ks[i] != ks[j] by {
        let hi = next_hop(hops, cur, i);
        let hj = next_hop(hops, cur, j);
        assert(schema_at(doc, hops[i]) matches Some(t) && t.ref_path matches Some(x) && x@ == hi);
        assert(schema_at(doc, hops[j]) matches Some(t) && t.ref_path matches Some(x) && x@ == hj);
        if j + 1 < hops.len() {
            assert(hi != hj);
        } else {
            assert((path + hops)[path.len() + i + 1] == hops[i + 1]);
            assert(hi != hj);
        }
    }
    lemma_distinct_indices_bounded(ks, entries.len() as int);
}

/// Follows the chain from `ref_path` with `stack` as the resolution path,
/// leaving the stack as it found it.
fn follow_chain<'a>(spec: &'a OpenApiSpec, stack: &mut Vec<String>, ref_path: &str) -> (r: Option<
    (&'a Schema, String),
>)
    ensures
        final(stack)@ == old(stack)@,
        r is Some <==> exists|hops: Seq<Seq<char>>|
            is_ref_chain(*spec, path_view(old(stack)@), ref_path@, hops),
        r matches Some((t, p)) ==> (exists|hops: Seq<Seq<char>>|
            is_ref_chain(*spec, path_view(old(stack)@), ref_path@, hops) && hops.last() == p@)
            && schema_at(*spec, p@) == Some(*t),
{
    let ghost doc = *spec;
    let ghost path = path_view(stack@);
    let ghost base = stack@;
    let ghost start = ref_path@;
    let ghost n = doc.component_schemas().len() as int;
    let depth = stack.len();
    let mut cur: String = ref_path.to_owned();
    let ghost mut hops: Seq<Seq<char>> = Seq::empty();
    let ghost mut ks: Seq<int> = Seq::empty();
    proof {
        reveal(chain_prefix);
        reveal(chains_extend);
        reveal(hop_indices);
        assert forall|c: Seq<Seq<char>>| #[trigger] is_ref_chain(doc, path, start, c) implies begins_with(
            c,
            hops,
            cur@,
        ) by {
            assert(c.subrange(0, 0) =~= hops);
        }
    }
    loop
        invariant
            base == old(stack)@,
            doc == *spec,
            start == ref_path@,
            n == doc.component_schemas().len(),
            depth == base.len(),
            path == path_view(base),
            stack@.len() == depth + hops.len(),
            forall|i: int| 0 <= i < depth ==> #[trigger] stack@[i] == base[i],
            forall|i: int| 0 <= i < hops.len() ==> #[trigger] stack@[depth + i]@ == hops[i],
            chain_prefix(doc, path, start, hops, cur@),
            chains_extend(doc, path, start, hops, cur@),
            hop_indices(doc, hops, ks),
            hops.len() <= n + 1,
        decreases n + 1 - hops.len(),
    {
        proof {
            assert(path_view(stack@) =~= path + hops) by {
                assert forall|i: int| 0 <= i < path_view(stack@).len() implies path_view(stack@)[i]
                    == (path + hops)[i] by {
                    if i >= depth {
                        assert(stack@[depth + (i - depth)]@ == hops[i - depth]);
                    }
                }
            }
        }
        let cyclic = on_path(stack, cur.as_str());
        if cyclic {
            proof {
                lemma_cycle_ends(doc, path, start, hops, cur@);
            }
            stack.truncate(depth);
            assert(stack@ =~= base);
            return None;
        }
        match spec.resolve_schema_ref(cur.as_str()) {
            None => {
                proof {
                    lemma_dangling_ends(doc, path, start, hops, cur@);
                }
                stack.truncate(depth);
                assert(stack@ =~= base);
                return None;
            },
            Some(target) => {
                proof {
                    lemma_hops_bounded(doc, path, start, hops, cur@, ks);
                }
                let ghost k = entry_index(doc.component_schemas(), after_last_slash(cur@))->0;
                let pointer = cur.clone();
                stack.push(pointer);
                match &target.ref_path {
                    Some(next) => {
                        proof {
                            lemma_prefix_step(doc, path, start, hops, cur@, *target, next@);
                            lemma_extend_step(doc, path, start, hops, cur@, *target, next@);
                            lemma_index_step(doc, hops, ks, cur@);
                            hops = hops.push(cur@);
                            ks = ks.push(k);
                        }
                        cur = next.clone();
                    },
                    None => {
                        proof {
                            lemma_chain_ends_here(doc, path, start, hops, cur@, *target);
                        }
                        stack.truncate(depth);
                        assert(stack@ =~= base);
                        return Some((target, cur));
                    },
                }
            },
        }
    }
}

/// Resolves `$ref` pointers against a document while refusing to loop.
///
/// It follows a whole chain, not a single hop, and its loop guard is the
/// current resolution path, not a global seen-set: a schema reached twice
/// from different parents is shared, not cyclic. Only a revisit on the path
/// itself is a cycle.
pub struct RefResolver<'a> {
    spec: &'a OpenApiSpec,
    stack: Vec<String>,
}

impl<'a> RefResolver<'a> {
    /// The document being resolved against.
    pub closed spec fn document(&self) -> OpenApiSpec {
        *self.spec
    }

    /// The pointers on the current resolution path, outermost first.
    pub closed spec fn path(&self) -> Seq<Seq<char>> {
        path_view(self.stack@)
    }

    #[must_use]
    pub fn new(spec: &'a OpenApiSpec) -> (r: Self)
        ensures
            r.document() == *spec,
            r.path() == Seq::<Seq<char>>::empty(),
    {
        let r = RefResolver { spec, stack: Vec::new() };
        assert(r.path() =~= Seq::<Seq<char>>::empty());
        r
    }

    /// The document being resolved against.
    #[must_use]
    pub fn spec(&self) -> (r: &'a OpenApiSpec)
        ensures
            *r == self.document(),
    {
        self.spec
    }

    /// How deep the current resolution path is.
    #[must_use]
    pub fn depth(&self) -> (r: usize)
        ensures
            r == self.path().len(),
    {
        self.stack.len()
    }

    /// Follows a `$ref` chain to the first schema that is not itself a bare
    /// `$ref`, returning that schema and the pointer that names it.
    ///
    /// `None` when a pointer dangles, or when following it would re-enter a
    /// pointer already on the current resolution path or on the chain
    /// itself. The resolution path is the same afterwards as before.
    #[must_use]
    pub fn resolve_named(&mut self, ref_path: &str) -> (r: Option<(&'a Schema, String)>)
        ensures
            final(self).document() == old(self).document(),
            final(self).path() == old(self).path(),
            r is Some <==> exists|hops: Seq<Seq<char>>|
                is_ref_chain(old(self).document(), old(self).path(), ref_path@, hops),
            r matches Some((t, p)) ==> (exists|hops: Seq<Seq<char>>|
                is_ref_chain(old(self).document(), old(self).path(), ref_path@, hops)
                    && hops.last() == p@) && schema_at(old(self).document(), p@) == Some(*t),
    {
        follow_chain(self.spec, &mut self.stack, ref_path)
    }

    /// As [`Self::resolve_named`], discarding the terminal pointer.
    #[must_use]
    pub fn resolve(&mut self, ref_path: &str) -> (r: Option<&'a Schema>)
        ensures
            final(self).document() == old(self).document(),
            final(self).path() == old(self).path(),
            r is Some <==> exists|hops: Seq<Seq<char>>|
                is_ref_chain(old(self).document(), old(self).path(), ref_path@, hops),
            r matches Some(t) ==> exists|hops: Seq<Seq<char>>|
                is_ref_chain(old(self).document(), old(self).path(), ref_path@, hops)
                    && schema_at(old(self).document(), hops.last()) == Some(*t),
    {
        match self.resolve_named(ref_path) {
            Some((s, _)) => Some(s),
            None => None,
        }
    }

    /// Runs `f` with `name` pushed onto the resolution path, so anything it
    /// resolves transitively can detect a cycle back to here, then pops the
    /// last pointer off the path again and returns what `f` returned.
    pub fn within<T, F: FnOnce(&mut Self) -> T>(&mut self, name: &str, f: F) -> (r: T)
        requires
            forall|s: &mut Self| call_requires(f, (s,)),
        ensures
            exists|s: &mut Self|
                (*s).document() == old(self).document() && (*s).path() == old(self).path().push(
                    name@,
                ) && call_ensures(f, (s,), r) && final(self).document() == (*final(s)).document()
                    && (if (*final(s)).path().len() > 0 {
                    final(self).path() == (*final(s)).path().drop_last()
                } else {
                    final(self).path() == (*final(s)).path()
                }),
    {
        self.stack.push(name.to_owned());
        assert(self.path() =~= old(self).path().push(name@));
        let out = f(self);
        self.stack.pop();
        out
    }
}

/// Two chains from the same start agree on every position both reach.
pub proof fn lemma_chains_agree(
    doc: OpenApiSpec,
    path: Seq<Seq<char>>,
    start: Seq<char>,
    c1: Seq<Seq<char>>,
    c2: Seq<Seq<char>>,
    i: int,
)
    requires
        is_ref_chain(doc, path, start, c1),
        is_ref_chain(doc, path, start, c2),
        0 <= i < c1.len(),
        i < c2.len(),
    ensures
        forall|k: int| 0 <= k <= i ==> c1[k] == c2[k],
    decreases i,
{
    if i > 0 {
        lemma_chains_agree(doc, path, start, c1, c2, i - 1);
        assert(schema_at(doc, c1[i - 1]) matches Some(t) && t.ref_path matches Some(x) && x@
            == c1[i]);
        assert(schema_at(doc, c2[i - 1]) matches Some(t) && t.ref_path matches Some(x) && x@
            == c2[i]);
    }
}

/// From a given start and resolution path there is at most one `$ref`
/// chain: each pointer determines the next.
pub proof fn lemma_chain_unique(
    doc: OpenApiSpec,
    path: Seq<Seq<char>>,
    start: Seq<char>,
    c1: Seq<Seq<char>>,
    c2: Seq<Seq<char>>,
)
    requires
        is_ref_chain(doc, path, start, c1),
        is_ref_chain(doc, path, start, c2),
    ensures
        c1 == c2,
{
    let n = if c1.len() < c2.len() { c1.len() as int } else { c2.len() as int };
    let i = n - 1;
    lemma_chains_agree(doc, path, start, c1, c2, i);
    if c1.len() < c2.len() {
        assert(c1.last() == c1[i]);
        assert(schema_at(doc, c2[i]) matches Some(t) && t.ref_path is Some);
    } else if c2.len() < c1.len() {
        assert(c2.last() == c2[i]);
        assert(schema_at(doc, c1[i]) matches Some(t) && t.ref_path is Some);
    }
    assert(c1 =~= c2);
}

/// The pointer a `$ref` chain from `start` ends at, if there is a chain.
pub open spec fn chain_end(doc: OpenApiSpec, path: Seq<Seq<char>>, start: Seq<char>) -> Option<
    Seq<char>,
> {
    if exists|c: Seq<Seq<char>>| is_ref_chain(doc, path, start, c) {
        Some((choose|c: Seq<Seq<char>>| is_ref_chain(doc, path, start, c)).last())
    } else {
        None
    }
}

/// The pointer a `$ref` is named after with the document in hand: the
/// terminal target of its chain, or, when the chain dangles or cycles, the
/// pointer as written.
pub open spec fn terminal_pointer(doc: OpenApiSpec, path: Seq<Seq<char>>, p: Seq<char>) -> Seq<char> {
    match chain_end(doc, path, p) {
        Some(end) => end,
        None => p,
    }
}

/// The field type of a schema with the document in hand. It differs from
/// [`schema_field_type`] only in the name a `$ref` gives: that of the
/// terminal target of its chain (see [`terminal_pointer`]) rather than of its
/// first hop; a `$ref` node marked nullable is made nullable all the same.
pub open spec fn schema_field_type_in(doc: OpenApiSpec, path: Seq<Seq<char>>, s: Schema) -> SpecFieldType {
    match s.ref_path {
        Some(p) => {
            let obj = SpecFieldType::Object(after_last_slash(terminal_pointer(doc, path, p@)));
            if s.nullable {
                SpecFieldType::Nullable(Box::new(obj))
            } else {
                obj
            }
        },
        None => schema_field_type(s),
    }
}

/// With the document in hand a schema maps as it does without, but for the
/// name a `$ref` gives: where the chain of a `$ref` ends at the pointer as
/// written (a single hop, a dangling pointer or a cycle), the two agree.
pub proof fn lemma_in_agrees_on_single_hop(doc: OpenApiSpec, path: Seq<Seq<char>>, s: Schema)
    requires
        s.ref_path matches Some(p) ==> terminal_pointer(doc, path, p@) == p@,
    ensures
        schema_field_type_in(doc, path, s) == schema_field_type(s),
{
}

/// Maps a schema to a field type with the document in hand (see
/// [`schema_field_type_in`]).
pub fn schema_to_field_type_in(r: &mut RefResolver<'_>, schema: &Schema) -> (t: FieldType)
    ensures
        final(r).document() == old(r).document(),
        final(r).path() == old(r).path(),
        t@ == schema_field_type_in(old(r).document(), old(r).path(), *schema),
{
    if let Some(ref_path) = &schema.ref_path {
        let ghost doc = r.document();
        let ghost path = r.path();
        let name = match r.resolve_named(ref_path.as_str()) {
            Some((_, pointer)) => {
                proof {
                    let c = choose|c: Seq<Seq<char>>| is_ref_chain(doc, path, ref_path@, c)
                        && c.last() == pointer@;
                    let d = choose|c: Seq<Seq<char>>| is_ref_chain(doc, path, ref_path@, c);
                    lemma_chain_unique(doc, path, ref_path@, c, d);
                }
                ref_name(pointer.as_str())
            },
            None => ref_name(ref_path.as_str()),
        };
        let ghost nm = name@;
        let obj = FieldType::Object(name);
        assert(obj@ == SpecFieldType::Object(nm));
        if schema.nullable {
            let t = FieldType::Nullable(Box::new(obj));
            assert(t@ == SpecFieldType::Nullable(Box::new(obj@)));
            return t;
        }
        return obj;
    }
    schema_to_field_type(schema)
}

} // verus!

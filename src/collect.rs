use crate::model::{
    Components, Document, HttpMethod, Operation, Parameter, ParameterLocation, PathItem, RefOr,
    RequestBody,
};
use crate::naming::{modify_path_template, normalized_path, snake_case_of, to_snake_case};
use crate::resolve::{
    parameter_table, request_body_table, resolve_parameter, resolve_request_body,
    resolved,
};
use multimap::MultiMap;
use vstd::prelude::*;

verus! {

#[verifier::external_type_specification]
#[verifier::external_body]
#[verifier::reject_recursive_types(K)]
#[verifier::reject_recursive_types(V)]
#[verifier::reject_recursive_types(S)]
pub struct ExMultiMap<K, V, S>(MultiMap<K, V, S>);

/// What a tag multimap holds: for each tag, its values in insertion order.
pub uninterp spec fn multimap_groups(m: MultiMap<String, usize>) -> Map<Seq<char>, Seq<usize>>;

/// Relies on `MultiMap::new`: the map starts empty.
#[verifier::external_body]
fn multimap_new() -> (r: MultiMap<String, usize>)
    ensures
        multimap_groups(r).dom() == Set::<Seq<char>>::empty(),
{
    MultiMap::new()
}

/// Relies on `MultiMap::insert`: the value is pushed at the end of the key's
/// vector, which is created holding it alone when the key is new.
#[verifier::external_body]
fn multimap_insert(m: &mut MultiMap<String, usize>, k: String, v: usize)
    ensures
        multimap_groups(*final(m)) == multimap_groups(*old(m)).insert(
            k@,
            if multimap_groups(*old(m)).contains_key(k@) {
                multimap_groups(*old(m))[k@].push(v)
            } else {
                seq![v]
            },
        ),
{
    m.insert(k, v)
}

/// Relies on `MultiMap::keys`: every key once, in an order that is not specified.
#[verifier::external_body]
fn multimap_keys(m: &MultiMap<String, usize>) -> (r: Vec<String>)
    ensures
        forall|i: int| 0 <= i < r@.len() ==> multimap_groups(*m).contains_key(#[trigger] r@[i]@),
        forall|g: Seq<char>|
            multimap_groups(*m).contains_key(g) ==> exists|i: int|
                0 <= i < r@.len() && #[trigger] r@[i]@ == g,
        forall|i: int, j: int| 0 <= i < j < r@.len() ==> r@[i]@ != r@[j]@,
{
    m.keys().cloned().collect()
}

/// Relies on `MultiMap::get_vec`: the key's vector, if the key is present.
#[verifier::external_body]
fn multimap_get_vec(m: &MultiMap<String, usize>, k: &String) -> (r: Option<Vec<usize>>)
    ensures
        multimap_groups(*m).contains_key(k@) ==> r is Some,
        r is Some ==> r.unwrap()@ == multimap_groups(*m)[k@],
        !multimap_groups(*m).contains_key(k@) ==> r is None,
{
    m.get_vec(k).cloned()
}

/// The model of one operation, ready for code synthesis.
#[derive(Clone, Debug)]
pub struct HandlerDescription {
    pub operation_id: String,
    pub method: HttpMethod,
    pub path: String,
    pub path_params: Vec<String>,
    pub request_body: Option<RequestBody>,
}

/// A request body as (media types, required).
pub type BodyView = (Seq<Seq<char>>, bool);

pub struct HandlerView {
    pub operation_id: Seq<char>,
    pub method: HttpMethod,
    pub path: Seq<char>,
    pub path_params: Seq<Seq<char>>,
    pub body: Option<BodyView>,
}

pub open spec fn strings_view(v: Seq<String>) -> Seq<Seq<char>> {
    v.map_values(|s: String| s@)
}

pub open spec fn body_view(b: RequestBody) -> BodyView {
    (strings_view(b.content@), b.required)
}

impl View for HandlerDescription {
    type V = HandlerView;

    open spec fn view(&self) -> HandlerView {
        HandlerView {
            operation_id: self.operation_id@,
            method: self.method,
            path: self.path@,
            path_params: strings_view(self.path_params@),
            body: match self.request_body {
                Some(b) => Some(body_view(b)),
                None => None,
            },
        }
    }
}

/// The snake-case names of the declared parameters that resolve to path
/// parameters, in declaration order; the others, and those that do not resolve,
/// are left out.
pub open spec fn path_param_names(params: Seq<RefOr<Parameter>>, comps: Option<&Components>) -> Seq<
    Seq<char>,
>
    decreases params.len(),
{
    if params.len() == 0 {
        seq![]
    } else {
        let prev = path_param_names(params.drop_last(), comps);
        match resolved(params.last(), "parameters"@, parameter_table(comps)) {
            Some(p) => if p.location == ParameterLocation::Path {
                prev.push(snake_case_of(p.name@))
            } else {
                prev
            },
            None => prev,
        }
    }
}

/// The resolved request body of an operation; none when it declares none or its
/// reference does not resolve.
pub open spec fn resolved_body(op: Operation, comps: Option<&Components>) -> Option<BodyView> {
    match op.request_body {
        None => None,
        Some(b) => match resolved(b, "request_body"@, request_body_table(comps)) {
            Some(rb) => Some(body_view(rb)),
            None => None,
        },
    }
}

/// The group of an operation: its first tag, or `NoTag` when it has none.
pub open spec fn operation_tag(op: Operation) -> Seq<char> {
    if op.tags@.len() > 0 {
        op.tags@[0]@
    } else {
        "NoTag"@
    }
}

/// The (tag, description) of an operation; none for an operation without id.
pub open spec fn describe(
    method: HttpMethod,
    path: Seq<char>,
    op: Operation,
    comps: Option<&Components>,
) -> Option<(Seq<char>, HandlerView)> {
    match op.operation_id {
        None => None,
        Some(id) => Some(
            (
                operation_tag(op),
                HandlerView {
                    operation_id: snake_case_of(id@),
                    method: method,
                    path: normalized_path(path),
                    path_params: path_param_names(op.parameters@, comps),
                    body: resolved_body(op, comps),
                },
            ),
        ),
    }
}

pub(crate) fn copy_request_body(b: &RequestBody) -> (r: RequestBody)
    ensures
        body_view(r) == body_view(*b),
{
    let mut content: Vec<String> = Vec::new();
    let mut i: usize = 0;
    while i < b.content.len()
        invariant
            i <= b.content@.len(),
            strings_view(content@) == strings_view(b.content@.subrange(0, i as int)),
        decreases b.content@.len() - i,
    {
        let c: String = b.content[i].clone();
        let ghost before = content@;
        content.push(c);
        assert(content@ =~= before.push(c));
        assert(strings_view(content@) =~= strings_view(before).push(c@));
        assert(b.content@.subrange(0, i + 1) =~= b.content@.subrange(0, i as int).push(
            b.content@[i as int],
        ));
        assert(strings_view(content@) =~= strings_view(b.content@.subrange(0, i + 1)));
        i = i + 1;
    }
    assert(b.content@.subrange(0, b.content@.len() as int) =~= b.content@);
    RequestBody { content, required: b.required }
}

/// Builds the description of one operation and picks its tag. An operation
/// without an id gives none.
pub fn describe_operation(
    method: HttpMethod,
    path: &str,
    op: &Operation,
    components: Option<&Components>,
) -> (r: Option<(String, HandlerDescription)>)
    ensures
        match r {
            Some(e) => describe(method, path@, *op, components) == Some((e.0@, e.1@)),
            None => describe(method, path@, *op, components) is None,
        },
{
    let operation_id = match &op.operation_id {
        Some(id) => id,
        None => {
            return None;
        },
    };
    let mut path_params: Vec<String> = Vec::new();
    let mut i: usize = 0;
    while i < op.parameters.len()
        invariant
            i <= op.parameters@.len(),
            strings_view(path_params@) == path_param_names(
                op.parameters@.subrange(0, i as int),
                components,
            ),
        decreases op.parameters@.len() - i,
    {
        let ghost prefix = op.parameters@.subrange(0, i + 1);
        assert(prefix.drop_last() =~= op.parameters@.subrange(0, i as int));
        match resolve_parameter(&op.parameters[i], components) {
            Some(p) => {
                if p.location == ParameterLocation::Path {
                    path_params.push(to_snake_case(p.name.as_str()));
                    assert(strings_view(path_params@) =~= path_param_names(prefix, components));
                }
            },
            None => {},
        }
        i = i + 1;
    }
    assert(op.parameters@.subrange(0, op.parameters@.len() as int) =~= op.parameters@);
    let request_body = match &op.request_body {
        Some(b) => match resolve_request_body(b, components) {
            Some(rb) => Some(copy_request_body(rb)),
            None => None,
        },
        None => None,
    };
    let tag = if op.tags.len() > 0 {
        op.tags[0].clone()
    } else {
        proof {
            reveal_strlit("NoTag");
        }
        "NoTag".to_owned()
    };
    let hd = HandlerDescription {
        operation_id: to_snake_case(operation_id.as_str()),
        method,
        path: modify_path_template(path),
        path_params,
        request_body,
    };
    Some((tag, hd))
}

/// A group map after filing index `i` under `tag`: `i` is appended to the
/// tag's list, which is created when the tag is new; every other list stays.
pub open spec fn filed(g: Map<Seq<char>, Seq<usize>>, tag: Seq<char>, i: usize) -> Map<
    Seq<char>,
    Seq<usize>,
> {
    g.insert(
        tag,
        if g.contains_key(tag) {
            g[tag].push(i)
        } else {
            seq![i]
        },
    )
}

/// The descriptions of a document in collection order, each with its tag, and a
/// multimap from tag to the indices of its descriptions.
pub struct HandlerGroups {
    pub groups: MultiMap<String, usize>,
    pub entries: Vec<(String, HandlerDescription)>,
}

pub open spec fn entry_view(e: (String, HandlerDescription)) -> (Seq<char>, HandlerView) {
    (e.0@, e.1@)
}

impl HandlerGroups {
    pub open spec fn groups_view(&self) -> Map<Seq<char>, Seq<usize>> {
        multimap_groups(self.groups)
    }

    pub open spec fn entries_view(&self) -> Seq<(Seq<char>, HandlerView)> {
        self.entries@.map_values(|e: (String, HandlerDescription)| entry_view(e))
    }

    /// Each group lists, in insertion order, exactly the indices of the entries
    /// that carry its tag, and every entry's tag has a group.
    pub open spec fn wf(&self) -> bool {
        let g = self.groups_view();
        let n = self.entries@.len();
        &&& forall|t: Seq<char>, k: int|
            g.contains_key(t) && 0 <= k < g[t].len() ==> #[trigger] g[t][k] < n
                && self.entries@[g[t][k] as int].0@ == t
        &&& forall|t: Seq<char>, k1: int, k2: int|
            g.contains_key(t) && 0 <= k1 < k2 < g[t].len() ==> #[trigger] g[t][k1]
                < #[trigger] g[t][k2]
        &&& forall|i: int|
            0 <= i < n ==> g.contains_key(#[trigger] self.entries@[i].0@) && g[self.entries@[
                i
            ].0@].contains(i as usize)
        &&& forall|t: Seq<char>| g.contains_key(t) ==> #[trigger] g[t].len() > 0
    }

    pub fn new() -> (r: HandlerGroups)
        ensures
            r.wf(),
            r.entries_view() == Seq::<(Seq<char>, HandlerView)>::empty(),
            r.entries@.len() == 0,
    {
        let r = HandlerGroups { groups: multimap_new(), entries: Vec::new() };
        assert(r.entries_view() =~= Seq::<(Seq<char>, HandlerView)>::empty());
        r
    }

    /// Appends a description under `tag`.
    pub fn insert(&mut self, tag: String, hd: HandlerDescription)
        requires
            old(self).wf(),
            old(self).entries@.len() < usize::MAX,
        ensures
            final(self).wf(),
            final(self).entries_view() == old(self).entries_view().push((tag@, hd@)),
            final(self).entries@.len() == old(self).entries@.len() + 1,
            final(self).groups_view() == filed(
                old(self).groups_view(),
                tag@,
                old(self).entries@.len() as usize,
            ),
    {
        let ghost old_g = self.groups_view();
        let ghost t = tag@;
        let n = self.entries.len();
        let key = tag.clone();
        multimap_insert(&mut self.groups, key, n);
        self.entries.push((tag, hd));
        let ghost g = self.groups_view();
        assert forall|u: Seq<char>, k: int| g.contains_key(u) && 0 <= k < g[u].len() implies #[trigger] g[u][k]
            < self.entries@.len() && self.entries@[g[u][k] as int].0@ == u by {
            if u != t {
                assert(old_g.contains_key(u) && g[u] == old_g[u]);
                assert(old_g[u][k] < n);
            } else if old_g.contains_key(t) && k < old_g[t].len() {
                assert(g[u][k] == old_g[t][k]);
            }
        }
        assert forall|u: Seq<char>, k1: int, k2: int|
            g.contains_key(u) && 0 <= k1 < k2 < g[u].len() implies #[trigger] g[u][k1]
            < #[trigger] g[u][k2] by {
            if u != t {
                assert(g[u] == old_g[u]);
            } else if old_g.contains_key(t) {
                assert(old_g[t][k1] < n);
                if k2 < old_g[t].len() {
                    assert(old_g[t][k1] < old_g[t][k2]);
                }
            }
        }
        assert forall|i: int| 0 <= i < self.entries@.len() implies g.contains_key(
            #[trigger] self.entries@[i].0@,
        ) && g[self.entries@[i].0@].contains(i as usize) by {
            if i < n {
                let u = self.entries@[i].0@;
                assert(old_g.contains_key(u) && old_g[u].contains(i as usize));
                if u == t {
                    let k = choose|k: int| 0 <= k < old_g[u].len() && old_g[u][k] == i as usize;
                    assert(g[u][k] == i as usize);
                }
            } else {
                if old_g.contains_key(t) {
                    assert(g[t][old_g[t].len() as int] == n);
                } else {
                    assert(g[t][0] == n);
                }
            }
        }
        assert forall|u: Seq<char>| g.contains_key(u) implies #[trigger] g[u].len() > 0 by {
            if u != t {
                assert(g[u] == old_g[u]);
            }
        }
        assert(self.entries_view() =~= old(self).entries_view().push((t, hd@)));
    }

    /// The tags that have a group, each once, in no specified order.
    pub fn tags(&self) -> (r: Vec<String>)
        ensures
            forall|i: int| 0 <= i < r@.len() ==> self.groups_view().contains_key(#[trigger] r@[i]@),
            forall|t: Seq<char>|
                self.groups_view().contains_key(t) ==> exists|i: int|
                    0 <= i < r@.len() && #[trigger] r@[i]@ == t,
            forall|i: int, j: int| 0 <= i < j < r@.len() ==> r@[i]@ != r@[j]@,
    {
        multimap_keys(&self.groups)
    }

    /// The indices of the entries of `tag`, in insertion order; empty for an
    /// unknown tag.
    pub fn members(&self, tag: &String) -> (r: Vec<usize>)
        ensures
            self.groups_view().contains_key(tag@) ==> r@ == self.groups_view()[tag@],
            !self.groups_view().contains_key(tag@) ==> r@.len() == 0,
    {
        match multimap_get_vec(&self.groups, tag) {
            Some(v) => v,
            None => Vec::new(),
        }
    }
}

/// The entry an optional operation contributes: none when absent or without id.
pub open spec fn operation_entries(
    method: HttpMethod,
    path: Seq<char>,
    op: Option<Operation>,
    comps: Option<&Components>,
) -> Seq<(Seq<char>, HandlerView)> {
    match op {
        Some(o) => match describe(method, path, o, comps) {
            Some(e) => seq![e],
            None => seq![],
        },
        None => seq![],
    }
}

/// The entries of one path table row: its GET, POST and PUT operations in that
/// order; a path item given by reference contributes nothing.
pub open spec fn path_item_entries(
    path: Seq<char>,
    item: RefOr<PathItem>,
    comps: Option<&Components>,
) -> Seq<(Seq<char>, HandlerView)> {
    match item {
        RefOr::Reference(_) => seq![],
        RefOr::Item(pi) => operation_entries(HttpMethod::Get, path, pi.get, comps)
            + operation_entries(HttpMethod::Post, path, pi.post, comps) + operation_entries(
            HttpMethod::Put,
            path,
            pi.put,
            comps,
        ),
    }
}

/// The entries of a path table, row by row.
pub open spec fn collected(
    paths: Seq<(String, RefOr<PathItem>)>,
    comps: Option<&Components>,
) -> Seq<(Seq<char>, HandlerView)>
    decreases paths.len(),
{
    if paths.len() == 0 {
        seq![]
    } else {
        collected(paths.drop_last(), comps) + path_item_entries(
            paths.last().0@,
            paths.last().1,
            comps,
        )
    }
}

/// Describes an operation and files it under its tag; an operation without id
/// leaves the groups as they are.
pub fn process_operation(
    method: HttpMethod,
    path: &str,
    groups: &mut HandlerGroups,
    op: &Operation,
    components: Option<&Components>,
)
    requires
        old(groups).wf(),
        old(groups).entries@.len() < usize::MAX,
    ensures
        final(groups).wf(),
        final(groups).entries_view() == old(groups).entries_view() + operation_entries(
            method,
            path@,
            Some(*op),
            components,
        ),
        final(groups).entries@.len() <= old(groups).entries@.len() + 1,
        final(groups).groups_view() == match describe(method, path@, *op, components) {
            Some(e) => filed(old(groups).groups_view(), e.0, old(groups).entries@.len() as usize),
            None => old(groups).groups_view(),
        },
{
    match describe_operation(method, path, op, components) {
        Some((tag, hd)) => {
            groups.insert(tag, hd);
        },
        None => {},
    }
    assert(final(groups).entries_view() =~= old(groups).entries_view() + operation_entries(
        method,
        path@,
        Some(*op),
        components,
    ));
}

fn process_optional(
    method: HttpMethod,
    path: &str,
    groups: &mut HandlerGroups,
    op: &Option<Operation>,
    components: Option<&Components>,
)
    requires
        old(groups).wf(),
        old(groups).entries@.len() < usize::MAX,
    ensures
        final(groups).wf(),
        final(groups).entries_view() == old(groups).entries_view() + operation_entries(
            method,
            path@,
            *op,
            components,
        ),
        final(groups).entries@.len() <= old(groups).entries@.len() + 1,
{
    match op {
        Some(o) => process_operation(method, path, groups, o, components),
        None => {
            assert(final(groups).entries_view() =~= old(groups).entries_view()
                + operation_entries(method, path@, *op, components));
        },
    }
}

pub open spec fn components_of(doc: &Document) -> Option<&Components> {
    match &doc.components {
        Some(c) => Some(c),
        None => None,
    }
}

/// Walks the path table of a document and groups the descriptions of its
/// operations by tag.
pub fn collect_handlers(doc: &Document) -> (r: HandlerGroups)
    requires
        3 * doc.paths@.len() < usize::MAX,
    ensures
        r.wf(),
        r.entries_view() == collected(doc.paths@, components_of(doc)),
{
    let components = match &doc.components {
        Some(c) => Some(c),
        None => None,
    };
    let mut groups = HandlerGroups::new();
    let mut i: usize = 0;
    while i < doc.paths.len()
        invariant
            i <= doc.paths@.len(),
            3 * doc.paths@.len() < usize::MAX,
            groups.wf(),
            groups.entries@.len() <= 3 * i,
            components == components_of(doc),
            groups.entries_view() == collected(doc.paths@.subrange(0, i as int), components),
        decreases doc.paths@.len() - i,
    {
        let ghost prefix = doc.paths@.subrange(0, i + 1);
        assert(prefix.drop_last() =~= doc.paths@.subrange(0, i as int));
        let path = doc.paths[i].0.as_str();
        match &doc.paths[i].1 {
            RefOr::Item(item) => {
                let ghost g0 = groups.entries_view();
                process_optional(HttpMethod::Get, path, &mut groups, &item.get, components);
                process_optional(HttpMethod::Post, path, &mut groups, &item.post, components);
                process_optional(HttpMethod::Put, path, &mut groups, &item.put, components);
                assert(groups.entries_view() =~= collected(prefix, components));
            },
            RefOr::Reference(_) => {
                assert(groups.entries_view() =~= collected(prefix, components));
            },
        }
        i = i + 1;
    }
    assert(doc.paths@.subrange(0, doc.paths@.len() as int) =~= doc.paths@);
    groups
}

/// An operation with an id and no tag is filed under the fallback tag `NoTag`.
pub proof fn lemma_untagged_in_fallback_group(
    method: HttpMethod,
    path: Seq<char>,
    op: Operation,
    comps: Option<&Components>,
)
    requires
        op.operation_id is Some,
        op.tags@.len() == 0,
    ensures
        describe(method, path, op, comps) matches Some(e) && e.0 == "NoTag"@,
{
}

/// An operation without id contributes no description: processing it leaves the
/// entries and the groups as they were.
pub proof fn lemma_operation_without_id_skipped(
    method: HttpMethod,
    path: Seq<char>,
    op: Operation,
    comps: Option<&Components>,
)
    requires
        op.operation_id is None,
    ensures
        describe(method, path, op, comps) is None,
        operation_entries(method, path, Some(op), comps) == Seq::<(Seq<char>, HandlerView)>::empty(),
{
}

/// Every collected description is in the group of its own tag, exactly once,
/// and in no other group.
pub proof fn lemma_in_exactly_one_group(g: HandlerGroups, i: int)
    requires
        g.wf(),
        0 <= i < g.entries@.len(),
    ensures
        g.groups_view().contains_key(g.entries@[i].0@),
        g.groups_view()[g.entries@[i].0@].contains(i as usize),
        forall|t: Seq<char>|
            t != g.entries@[i].0@ && g.groups_view().contains_key(t)
                ==> !(#[trigger] g.groups_view()[t]).contains(i as usize),
        forall|k1: int, k2: int|
            0 <= k1 < k2 < g.groups_view()[g.entries@[i].0@].len() ==> !(
            #[trigger] g.groups_view()[g.entries@[i].0@][k1] == i as usize
                && #[trigger] g.groups_view()[g.entries@[i].0@][k2] == i as usize),
{
    let gv = g.groups_view();
    assert(gv.contains_key(g.entries@[i].0@));
    assert forall|t: Seq<char>|
        t != g.entries@[i].0@ && gv.contains_key(t) implies !(#[trigger] gv[t]).contains(
        i as usize,
    ) by {
        if gv[t].contains(i as usize) {
            let k = choose|k: int| 0 <= k < gv[t].len() && gv[t][k] == i as usize;
            assert(gv[t][k] < g.entries@.len());
        }
    }
}

} // verus!

use crate::collect::{
    collect_handlers, collected, components_of, copy_request_body, strings_view,
    HandlerDescription, HandlerGroups, HandlerView,
};
use crate::model::Document;
use crate::naming::{adjust_content_type, adjusted_content_type};
use crate::synth::{
    all_routes, concat_all, descriptions_view, generate_handlers, generate_module_index,
    generate_router, generate_server, handlers_module, module_index, router_module, server_module,
};
use vstd::prelude::*;
use vstd::string::*;

verus! {

/// Whether a text parses as a Rust source file.
pub uninterp spec fn parses_as_file(s: Seq<char>) -> bool;

/// What a text that parses as a Rust source file is printed back as.
pub uninterp spec fn formatted_of(s: Seq<char>) -> Seq<char>;

/// Relies on `syn::parse_file` and `prettyplease::unparse`: the text is parsed
/// as a Rust source file and, when it parses, printed back formatted; both
/// depend on the text alone. The printer stops on syntax that the parser keeps
/// verbatim, so only texts planned from usable names are handed to it.
#[verifier::external_body]
fn format_source(text: &str) -> (r: Option<String>)
    requires
        safe_source(text@),
    ensures
        r is Some == parses_as_file(text@),
        r is Some ==> r.unwrap()@ == formatted_of(text@),
{
    match syn::parse_file(text) {
        Ok(file) => Some(prettyplease::unparse(&file)),
        Err(_) => None,
    }
}

pub open spec fn is_ident_char(c: char) -> bool {
    ('a' <= c && c <= 'z') || ('A' <= c && c <= 'Z') || ('0' <= c && c <= '9') || c == '_'
}

/// Every character is a letter, a digit or `_`.
pub open spec fn ident_chars(s: Seq<char>) -> bool {
    forall|i: int| 0 <= i < s.len() ==> is_ident_char(#[trigger] s[i])
}

/// A name that can stand as one identifier token in generated source.
pub open spec fn ident_like(s: Seq<char>) -> bool {
    s.len() > 0 && ident_chars(s)
}

/// A text that can stand between the quotes of a string literal as it is.
pub open spec fn literal_safe(s: Seq<char>) -> bool {
    forall|i: int| 0 <= i < s.len() ==> #[trigger] s[i] != '"' && s[i] != '\\'
}

/// A description whose names and path can be written into source text.
pub open spec fn usable_view(h: HandlerView) -> bool {
    &&& ident_like(h.operation_id)
    &&& literal_safe(h.path)
    &&& forall|i: int| 0 <= i < h.path_params.len() ==> ident_like(#[trigger] h.path_params[i])
    &&& h.body matches Some(b) ==> forall|i: int|
        0 <= i < b.0.len() ==> ident_chars(adjusted_content_type(#[trigger] b.0[i]))
}

/// Every entry has a usable tag and a usable description.
pub open spec fn usable_entries(es: Seq<(Seq<char>, HandlerView)>) -> bool {
    forall|i: int| 0 <= i < es.len() ==> ident_like((#[trigger] es[i]).0) && usable_view(es[i].1)
}

/// Every tag of `ts` is usable, and so is every description of its group.
pub open spec fn usable_groups(g: HandlerGroups, ts: Seq<Seq<char>>) -> bool {
    forall|i: int|
        0 <= i < ts.len() ==> ident_like(#[trigger] ts[i]) && forall|k: int|
            0 <= k < group_of(g, ts[i]).len() ==> usable_view(#[trigger] group_of(g, ts[i])[k])
}

/// A text that the run plans for usable groups.
pub open spec fn safe_source(s: Seq<char>) -> bool {
    exists|g: HandlerGroups, ts: Seq<Seq<char>>, k: int|
        usable_groups(g, ts) && 0 <= k < planned_units(g, ts).len() && #[trigger] planned_units(
            g,
            ts,
        )[k].2 == s
}

fn ident_chars_of(s: &str) -> (r: bool)
    ensures
        r == ident_chars(s@),
{
    let n = s.unicode_len();
    let mut i: usize = 0;
    while i < n
        invariant
            i <= n == s@.len(),
            forall|j: int| 0 <= j < i ==> is_ident_char(#[trigger] s@[j]),
        decreases n - i,
    {
        let c = s.get_char(i);
        if !(('a' <= c && c <= 'z') || ('A' <= c && c <= 'Z') || ('0' <= c && c <= '9') || c
            == '_') {
            return false;
        }
        i = i + 1;
    }
    true
}

fn literal_safe_of(s: &str) -> (r: bool)
    ensures
        r == literal_safe(s@),
{
    let n = s.unicode_len();
    let mut i: usize = 0;
    while i < n
        invariant
            i <= n == s@.len(),
            forall|j: int| 0 <= j < i ==> #[trigger] s@[j] != '"' && s@[j] != '\\',
        decreases n - i,
    {
        let c = s.get_char(i);
        if c == '"' || c == '\\' {
            return false;
        }
        i = i + 1;
    }
    true
}

fn usable(tag: &String, hd: &HandlerDescription) -> (r: bool)
    ensures
        r == (ident_like(tag@) && usable_view(hd@)),
{
    if tag.as_str().unicode_len() == 0 || !ident_chars_of(tag.as_str()) {
        return false;
    }
    if hd.operation_id.as_str().unicode_len() == 0 || !ident_chars_of(hd.operation_id.as_str()) {
        return false;
    }
    if !literal_safe_of(hd.path.as_str()) {
        return false;
    }
    let mut i: usize = 0;
    while i < hd.path_params.len()
        invariant
            i <= hd.path_params@.len(),
            forall|j: int| 0 <= j < i ==> ident_like(#[trigger] strings_view(hd.path_params@)[j]),
        decreases hd.path_params@.len() - i,
    {
        let p = hd.path_params[i].as_str();
        if p.unicode_len() == 0 || !ident_chars_of(p) {
            assert(strings_view(hd.path_params@)[i as int] == p@);
            assert(hd@.path_params == strings_view(hd.path_params@));
            assert(!ident_like(hd@.path_params[i as int]));
            return false;
        }
        assert(strings_view(hd.path_params@)[i as int] == p@);
        i = i + 1;
    }
    match &hd.request_body {
        None => true,
        Some(b) => {
            let mut k: usize = 0;
            while k < b.content.len()
                invariant
                    hd.request_body == Some(*b),
                    k <= b.content@.len(),
                    forall|j: int|
                        0 <= j < k ==> ident_chars(
                            adjusted_content_type(#[trigger] strings_view(b.content@)[j]),
                        ),
                decreases b.content@.len() - k,
            {
                let a = adjust_content_type(b.content[k].as_str());
                assert(strings_view(b.content@)[k as int] == b.content@[k as int]@);
                if !ident_chars_of(a.as_str()) {
                    assert(hd@.body == Some((strings_view(b.content@), b.required)));
                    assert(!ident_chars(adjusted_content_type(hd@.body->Some_0.0[k as int])));
                    return false;
                }
                k = k + 1;
            }
            true
        },
    }
}

/// The first entry whose tag or description cannot be written into source text.
fn first_unusable(groups: &HandlerGroups) -> (r: Option<String>)
    ensures
        r is None <==> usable_entries(groups.entries_view()),
{
    let mut i: usize = 0;
    while i < groups.entries.len()
        invariant
            i <= groups.entries@.len(),
            forall|j: int|
                0 <= j < i ==> ident_like((#[trigger] groups.entries_view()[j]).0) && usable_view(
                    groups.entries_view()[j].1,
                ),
        decreases groups.entries@.len() - i,
    {
        let ghost e = groups.entries_view()[i as int];
        if !usable(&groups.entries[i].0, &groups.entries[i].1) {
            assert(!(ident_like(e.0) && usable_view(e.1)));
            return Some(groups.entries[i].0.clone());
        }
        i = i + 1;
    }
    None
}

/// Where a generated file goes: the handler directory or the build output.
#[derive(Clone, Copy, Debug, PartialEq, Eq, Structural)]
pub enum OutputDir {
    Handlers,
    Out,
}

/// A generated text and the file it is meant for, before validation.
#[derive(Clone, Debug)]
pub struct SourceUnit {
    pub dir: OutputDir,
    pub name: String,
    pub text: String,
}

/// A validated generated file: its raw text and its formatted text.
#[derive(Clone, Debug)]
pub struct Artifact {
    pub dir: OutputDir,
    pub name: String,
    pub raw: String,
    pub formatted: String,
}

/// Why a run produced no file.
#[derive(Clone, Debug)]
pub enum GenerationError {
    /// The tag of a description, or one of its names or its path, cannot be
    /// written into source text.
    UnusableName { tag: String },
    /// A generated text that does not parse, and the file it was meant for.
    InvalidSource { name: String, source: String },
}

pub type UnitView = (OutputDir, Seq<char>, Seq<char>);

pub open spec fn unit_view(u: SourceUnit) -> UnitView {
    (u.dir, u.name@, u.text@)
}

pub open spec fn units_view(v: Seq<SourceUnit>) -> Seq<UnitView> {
    v.map_values(|u: SourceUnit| unit_view(u))
}

pub open spec fn artifact_unit(a: Artifact) -> UnitView {
    (a.dir, a.name@, a.raw@)
}

/// `e` reports the text `source` of the file `name` as not parsing.
pub open spec fn invalid_source(e: GenerationError, name: Seq<char>, source: Seq<char>) -> bool {
    e matches GenerationError::InvalidSource { name: n, source: s } && n@ == name && s@ == source
}

/// Every artifact holds the formatted form of its raw text.
pub open spec fn formatted_artifacts(arts: Seq<Artifact>) -> bool {
    forall|k: int| 0 <= k < arts.len() ==> (#[trigger] arts[k]).formatted@ == formatted_of(arts[k].raw@)
}

/// Validates the units in order: all of them become artifacts, each with its
/// formatted text, or the first one whose text does not parse is reported and
/// nothing is returned.
pub fn validate_units(units: &Vec<SourceUnit>) -> (r: Result<Vec<Artifact>, GenerationError>)
    requires
        forall|k: int| 0 <= k < units@.len() ==> safe_source(#[trigger] units@[k].text@),
    ensures
        r is Ok <==> forall|k: int| 0 <= k < units@.len() ==> parses_as_file(#[trigger] units@[k].text@),
        r matches Ok(arts) ==> arts@.map_values(|a: Artifact| artifact_unit(a)) == units_view(units@)
            && formatted_artifacts(arts@),
        r matches Err(e) ==> exists|k: int|
            0 <= k < units@.len() && invalid_source(e, units@[k].name@, #[trigger] units@[k].text@)
                && !parses_as_file(units@[k].text@) && forall|j: int|
                0 <= j < k ==> parses_as_file(#[trigger] units@[j].text@),
{
    let mut arts: Vec<Artifact> = Vec::new();
    let mut i: usize = 0;
    while i < units.len()
        invariant
            i <= units@.len(),
            forall|k: int| 0 <= k < units@.len() ==> safe_source(#[trigger] units@[k].text@),
            forall|j: int| 0 <= j < i ==> parses_as_file(#[trigger] units@[j].text@),
            arts@.map_values(|a: Artifact| artifact_unit(a)) == units_view(
                units@.subrange(0, i as int),
            ),
            formatted_artifacts(arts@),
        decreases units@.len() - i,
    {
        let u = &units[i];
        assert(safe_source(units@[i as int].text@));
        match format_source(u.text.as_str()) {
            None => {
                let e = GenerationError::InvalidSource { name: u.name.clone(), source: u.text.clone() };
                assert(invalid_source(e, units@[i as int].name@, units@[i as int].text@));
                return Err(e);
            },
            Some(formatted) => {
                let a = Artifact {
                    dir: u.dir,
                    name: u.name.clone(),
                    raw: u.text.clone(),
                    formatted,
                };
                let ghost before = arts@;
                arts.push(a);
                assert(arts@.map_values(|a: Artifact| artifact_unit(a)) =~= before.map_values(
                    |a: Artifact| artifact_unit(a),
                ).push(artifact_unit(a)));
                assert(arts@.map_values(|a: Artifact| artifact_unit(a)) =~= units_view(
                    units@.subrange(0, i + 1),
                ));
                assert(arts@ == before.push(a));
                assert(formatted_artifacts(arts@));
            },
        }
        i = i + 1;
    }
    assert(units@.subrange(0, units@.len() as int) =~= units@);
    Ok(arts)
}

/// The descriptions filed under tag `t`, in insertion order.
pub open spec fn group_of(g: HandlerGroups, t: Seq<char>) -> Seq<HandlerView> {
    if g.groups_view().contains_key(t) {
        g.groups_view()[t].map_values(|i: usize| g.entries_view()[i as int].1)
    } else {
        seq![]
    }
}

/// The handler module and the router module of one tag.
pub open spec fn tag_units(g: HandlerGroups, t: Seq<char>) -> Seq<UnitView> {
    let hs = group_of(g, t);
    seq![
        (OutputDir::Handlers, t + "_handlers"@, handlers_module(hs)),
        (OutputDir::Out, t, router_module(t, all_routes(hs))),
    ]
}

pub open spec fn tags_units(g: HandlerGroups, ts: Seq<Seq<char>>) -> Seq<UnitView>
    decreases ts.len(),
{
    if ts.len() == 0 {
        seq![]
    } else {
        tags_units(g, ts.drop_last()) + tag_units(g, ts.last())
    }
}

/// The router modules of the tags, one after the other.
pub open spec fn routers_text(g: HandlerGroups, ts: Seq<Seq<char>>) -> Seq<char> {
    concat_all(ts.map_values(|t: Seq<char>| router_module(t, all_routes(group_of(g, t)))))
}

/// Every router is nested under the root.
pub open spec fn root_prefixes(n: nat) -> Seq<Seq<char>> {
    Seq::new(n, |i: int| "/"@)
}

/// The files of a run for the tags in the order `ts`: per tag its handler and
/// router modules, the module index when there is a tag, and last the server,
/// which holds the router modules and nests each of them under the root.
pub open spec fn planned_units(g: HandlerGroups, ts: Seq<Seq<char>>) -> Seq<UnitView> {
    tags_units(g, ts) + (if ts.len() > 0 {
        seq![(OutputDir::Handlers, "mod"@, module_index(ts))]
    } else {
        seq![]
    }) + seq![
        (
            OutputDir::Out,
            "lib"@,
            routers_text(g, ts) + server_module(root_prefixes(ts.len()), ts),
        ),
    ]
}

fn copy_description(hd: &HandlerDescription) -> (r: HandlerDescription)
    ensures
        r@ == hd@,
{
    let mut path_params: Vec<String> = Vec::new();
    let mut i: usize = 0;
    while i < hd.path_params.len()
        invariant
            i <= hd.path_params@.len(),
            strings_view(path_params@) == strings_view(hd.path_params@.subrange(0, i as int)),
        decreases hd.path_params@.len() - i,
    {
        let c = hd.path_params[i].clone();
        let ghost before = path_params@;
        path_params.push(c);
        assert(strings_view(path_params@) =~= strings_view(before).push(c@));
        assert(strings_view(path_params@) =~= strings_view(hd.path_params@.subrange(0, i + 1)));
        i = i + 1;
    }
    assert(hd.path_params@.subrange(0, i as int) =~= hd.path_params@);
    let request_body = match &hd.request_body {
        Some(b) => Some(copy_request_body(b)),
        None => None,
    };
    let r = HandlerDescription {
        operation_id: hd.operation_id.clone(),
        method: hd.method,
        path: hd.path.clone(),
        path_params,
        request_body,
    };
    assert(r@.path_params =~= hd@.path_params);
    r
}

fn group_descriptions(groups: &HandlerGroups, tag: &String) -> (r: Vec<HandlerDescription>)
    requires
        groups.wf(),
    ensures
        descriptions_view(r@) == group_of(*groups, tag@),
{
    let members = groups.members(tag);
    let ghost g = groups.groups_view();
    let ghost target = if g.contains_key(tag@) {
        g[tag@]
    } else {
        Seq::<usize>::empty()
    };
    assert(members@ == target);
    let mut hds: Vec<HandlerDescription> = Vec::new();
    let mut k: usize = 0;
    while k < members.len()
        invariant
            groups.wf(),
            g == groups.groups_view(),
            members@ == target,
            target == (if g.contains_key(tag@) {
                g[tag@]
            } else {
                Seq::<usize>::empty()
            }),
            k <= members@.len(),
            descriptions_view(hds@) == members@.subrange(0, k as int).map_values(
                |i: usize| groups.entries_view()[i as int].1,
            ),
        decreases members@.len() - k,
    {
        let idx = members[k];
        assert(g[tag@][k as int] < groups.entries@.len());
        let hd = copy_description(&groups.entries[idx].1);
        let ghost before = hds@;
        hds.push(hd);
        assert(descriptions_view(hds@) =~= descriptions_view(before).push(hd@));
        assert(members@.subrange(0, k + 1).map_values(|i: usize| groups.entries_view()[i as int].1)
            =~= members@.subrange(0, k as int).map_values(
            |i: usize| groups.entries_view()[i as int].1,
        ).push(groups.entries_view()[idx as int].1));
        k = k + 1;
    }
    assert(members@.subrange(0, k as int) =~= members@);
    hds
}

/// The generated texts of a run, for the tags in the order given.
pub fn plan_units(groups: &HandlerGroups, tags: &Vec<String>) -> (r: Vec<SourceUnit>)
    requires
        groups.wf(),
    ensures
        units_view(r@) == planned_units(*groups, strings_view(tags@)),
{
    let mut units: Vec<SourceUnit> = Vec::new();
    let mut routers = String::new();
    let mut prefixes: Vec<String> = Vec::new();
    let mut i: usize = 0;
    while i < tags.len()
        invariant
            groups.wf(),
            i <= tags@.len(),
            prefixes@.len() == i,
            strings_view(prefixes@) == root_prefixes(i as nat),
            units_view(units@) == tags_units(*groups, strings_view(tags@.subrange(0, i as int))),
            routers@ == routers_text(*groups, strings_view(tags@.subrange(0, i as int))),
        decreases tags@.len() - i,
    {
        let ghost ts = strings_view(tags@.subrange(0, i + 1));
        assert(ts.drop_last() =~= strings_view(tags@.subrange(0, i as int)));
        assert(ts.map_values(|t: Seq<char>| router_module(t, all_routes(group_of(*groups, t)))).drop_last()
            =~= ts.drop_last().map_values(
            |t: Seq<char>| router_module(t, all_routes(group_of(*groups, t))),
        ));
        let tag = &tags[i];
        let hds = group_descriptions(groups, tag);
        let (routes, handlers) = generate_handlers(&hds);
        let router = generate_router(tag.as_str(), &routes);
        let mut handlers_name = tag.clone();
        handlers_name.append("_handlers");
        let ghost before = units@;
        let u1 = SourceUnit { dir: OutputDir::Handlers, name: handlers_name, text: handlers };
        let u2 = SourceUnit { dir: OutputDir::Out, name: tag.clone(), text: router.clone() };
        units.push(u1);
        units.push(u2);
        assert(units_view(units@) =~= units_view(before) + seq![unit_view(u1), unit_view(u2)]);
        assert(units_view(units@) =~= tags_units(*groups, ts));
        routers.append(router.as_str());
        let ghost pbefore = prefixes@;
        prefixes.push("/".to_owned());
        assert(strings_view(prefixes@) =~= strings_view(pbefore).push("/"@));
        assert(strings_view(prefixes@) =~= root_prefixes((i + 1) as nat));
        i = i + 1;
    }
    assert(tags@.subrange(0, i as int) =~= tags@);
    let ghost before = units@;
    if tags.len() > 0 {
        let index = generate_module_index(tags);
        units.push(SourceUnit { dir: OutputDir::Handlers, name: "mod".to_owned(), text: index });
    }
    let ghost middle = units@;
    let server = generate_server(&prefixes, tags);
    let mut lib = routers;
    lib.append(server.as_str());
    let last = SourceUnit { dir: OutputDir::Out, name: "lib".to_owned(), text: lib };
    units.push(last);
    assert(units_view(units@) =~= units_view(middle).push(unit_view(last)));
    assert(units_view(units@) =~= planned_units(*groups, strings_view(tags@)));
    units
}

/// `ts` names every group of `g` once.
pub open spec fn lists_groups(g: HandlerGroups, ts: Seq<Seq<char>>) -> bool {
    &&& forall|i: int| 0 <= i < ts.len() ==> g.groups_view().contains_key(#[trigger] ts[i])
    &&& forall|t: Seq<char>|
        g.groups_view().contains_key(t) ==> exists|i: int| 0 <= i < ts.len() && #[trigger] ts[i] == t
    &&& forall|i: int, j: int| 0 <= i < j < ts.len() ==> ts[i] != ts[j]
}

/// What a run gives for the groups `g` and the tag order `ts`: the files of
/// `planned_units` when every one of their texts parses, else the first text
/// that does not.
pub open spec fn run_outcome(
    g: HandlerGroups,
    ts: Seq<Seq<char>>,
    r: Result<Vec<Artifact>, GenerationError>,
) -> bool {
    let units = planned_units(g, ts);
    &&& (r is Ok <==> forall|k: int| 0 <= k < units.len() ==> parses_as_file(#[trigger] units[k].2))
    &&& (r matches Ok(arts) ==> arts@.map_values(|a: Artifact| artifact_unit(a)) == units
        && formatted_artifacts(arts@))
    &&& (r matches Err(e) ==> exists|k: int|
        0 <= k < units.len() && invalid_source(e, units[k].1, #[trigger] units[k].2)
            && !parses_as_file(units[k].2))
}

/// What a run gives: when some entry cannot be written into source text, the
/// report of an unusable name; otherwise `run_outcome`.
pub open spec fn run_result(
    g: HandlerGroups,
    ts: Seq<Seq<char>>,
    r: Result<Vec<Artifact>, GenerationError>,
) -> bool {
    if usable_entries(g.entries_view()) {
        run_outcome(g, ts, r)
    } else {
        r matches Err(e) && e is UnusableName
    }
}

/// Collects the operations of a document and synthesizes every file of the run.
/// A tag, identifier, media type or path that cannot be written into source
/// text stops the run. Otherwise the run succeeds exactly when every
/// synthesized text parses, and else the first text that does not is reported;
/// either way no file is returned on failure. The order of the tags is not
/// specified: the files are those of `planned_units` for the collected groups
/// in some order of their tags, each with its formatted text.
pub fn generate_artifacts(doc: &Document) -> (r: Result<Vec<Artifact>, GenerationError>)
    requires
        3 * doc.paths@.len() < usize::MAX,
    ensures
        exists|g: HandlerGroups, ts: Seq<Seq<char>>|
            g.wf() && g.entries_view() == collected(doc.paths@, components_of(doc)) && lists_groups(
                g,
                ts,
            ) && #[trigger] run_result(g, ts, r),
        r matches Ok(arts) ==> formatted_artifacts(arts@) && forall|k: int|
            0 <= k < arts@.len() ==> parses_as_file(#[trigger] arts@[k].raw@),
{
    let groups = collect_handlers(doc);
    let tags = groups.tags();
    let ghost ts = strings_view(tags@);
    proof {
        assert(lists_groups(groups, ts)) by {
            assert forall|t: Seq<char>| groups.groups_view().contains_key(t) implies exists|i: int|
                0 <= i < ts.len() && #[trigger] ts[i] == t by {
                let i = choose|i: int| 0 <= i < tags@.len() && #[trigger] tags@[i]@ == t;
                assert(ts[i] == t);
            }
        }
    }
    match first_unusable(&groups) {
        Some(tag) => {
            let r = Err(GenerationError::UnusableName { tag });
            assert(run_result(groups, ts, r));
            return r;
        },
        None => {},
    }
    proof {
        let g = groups.groups_view();
        let es = groups.entries_view();
        assert forall|i: int| 0 <= i < ts.len() implies ident_like(#[trigger] ts[i]) && forall|k: int|
            0 <= k < group_of(groups, ts[i]).len() ==> usable_view(
                #[trigger] group_of(groups, ts[i])[k],
            ) by {
            let t = ts[i];
            assert(g.contains_key(t));
            assert(g[t].len() > 0);
            let idx = g[t][0];
            assert(idx < groups.entries@.len() && groups.entries@[idx as int].0@ == t);
            assert(es[idx as int].0 == t);
            assert forall|k: int| 0 <= k < group_of(groups, t).len() implies usable_view(
                #[trigger] group_of(groups, t)[k],
            ) by {
                let j = g[t][k];
                assert(j < groups.entries@.len());
                assert(group_of(groups, t)[k] == es[j as int].1);
                assert(usable_view(es[j as int].1));
            }
        }
        assert(usable_groups(groups, ts));
    }
    let units = plan_units(&groups, &tags);
    proof {
        let pl = planned_units(groups, ts);
        assert(units_view(units@) == pl);
        assert(units_view(units@).len() == units@.len());
        assert forall|k: int| 0 <= k < units@.len() implies safe_source(#[trigger] units@[k].text@) by {
            assert(pl[k] == unit_view(units@[k]));
            assert(pl[k].2 == units@[k].text@);
        }
    }
    let r = validate_units(&units);
    proof {
        let pl = planned_units(groups, ts);
        assert forall|k: int| 0 <= k < units@.len() implies #[trigger] pl[k] == unit_view(
            units@[k],
        ) by {}
        if r is Ok {
            let arts = r->Ok_0;
            assert(arts@.map_values(|a: Artifact| artifact_unit(a)).len() == arts@.len());
            assert forall|k: int| 0 <= k < arts@.len() implies parses_as_file(
                #[trigger] arts@[k].raw@,
            ) by {
                assert(arts@.map_values(|a: Artifact| artifact_unit(a))[k] == units_view(units@)[k]);
                assert(parses_as_file(units@[k].text@));
            }
            assert forall|k: int| 0 <= k < pl.len() implies parses_as_file(#[trigger] pl[k].2) by {
                assert(parses_as_file(units@[k].text@));
            }
        } else {
            let e = r->Err_0;
            let k = choose|k: int|
                0 <= k < units@.len() && invalid_source(e, units@[k].name@, #[trigger] units@[k].text@)
                    && !parses_as_file(units@[k].text@) && forall|j: int|
                    0 <= j < k ==> parses_as_file(#[trigger] units@[j].text@);
            assert(pl[k].2 == units@[k].text@);
            assert(!(forall|k: int| 0 <= k < pl.len() ==> parses_as_file(#[trigger] pl[k].2)));
        }
        assert(run_outcome(groups, ts, r));
        assert(run_result(groups, ts, r));
    }
    r
}

} // verus!

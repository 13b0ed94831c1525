use crate::model::{Components, Parameter, RefOr, RequestBody, Schema};
use vstd::prelude::*;
use vstd::set_lib::{lemma_int_range, lemma_len_subset, set_int_range};
use vstd::string::*;

verus! {

/// Index of the last `c` in `s` before `end`, or -1 when there is none.
pub open spec fn last_index_before(s: Seq<char>, c: char, end: int) -> int
    decreases end,
{
    if end <= 0 || end > s.len() {
        -1
    } else if s[end - 1] == c {
        end - 1
    } else {
        last_index_before(s, c, end - 1)
    }
}

/// The last two `/`-separated segments of a reference, as (category, name); any
/// earlier segments are ignored. A reference without `/` has no target.
pub open spec fn reference_target(r: Seq<char>) -> Option<(Seq<char>, Seq<char>)> {
    let i = last_index_before(r, '/', r.len() as int);
    if i < 0 {
        None
    } else {
        let j = last_index_before(r, '/', i);
        Some((r.subrange(j + 1, i), r.subrange(i + 1, r.len() as int)))
    }
}

/// Index of the first entry at or after `from` whose name is `name`, or -1: the
/// first of several entries with one name is the one found.
pub open spec fn lookup_index<T>(t: Seq<(String, T)>, name: Seq<char>, from: int) -> int
    decreases t.len() - from,
{
    if from < 0 || from >= t.len() {
        -1
    } else if t[from].0@ == name {
        from
    } else {
        lookup_index(t, name, from + 1)
    }
}

pub open spec fn table_view<T>(table: Option<&Vec<(String, T)>>) -> Option<Seq<(String, T)>> {
    match table {
        Some(t) => Some(t@),
        None => None,
    }
}

pub open spec fn deref_opt<T>(o: Option<&T>) -> Option<T> {
    match o {
        Some(v) => Some(*v),
        None => None,
    }
}

/// One dereference: where the reference's category is the accepted one and its
/// name is in the table, the entry it names. Without a table nothing is found.
pub open spec fn lookup_step<T>(
    reference: Seq<char>,
    category: Seq<char>,
    table: Option<Seq<(String, RefOr<T>)>>,
) -> Option<RefOr<T>> {
    match reference_target(reference) {
        None => None,
        Some(target) => {
            if target.0 != category {
                None
            } else {
                match table {
                    None => None,
                    Some(t) => {
                        let i = lookup_index(t, target.1, 0);
                        if i < 0 {
                            None
                        } else {
                            Some(t[i].1)
                        }
                    },
                }
            }
        },
    }
}

/// Resolution that follows at most `fuel` references before giving up.
pub open spec fn resolve_fuel<T>(
    r: RefOr<T>,
    category: Seq<char>,
    table: Option<Seq<(String, RefOr<T>)>>,
    fuel: nat,
) -> Option<T>
    decreases fuel,
{
    match r {
        RefOr::Item(x) => Some(x),
        RefOr::Reference(s) => {
            if fuel == 0 {
                None
            } else {
                match lookup_step(s@, category, table) {
                    None => None,
                    Some(next) => resolve_fuel(next, category, table, (fuel - 1) as nat),
                }
            }
        },
    }
}

/// Resolution proper: a chain that reaches a literal visits each table entry at
/// most once, so the size of the table bounds the references to follow. A chain
/// that comes back to an entry it has left never reaches a literal.
pub open spec fn resolved<T>(
    r: RefOr<T>,
    category: Seq<char>,
    table: Option<Seq<(String, RefOr<T>)>>,
) -> Option<T> {
    resolve_fuel(
        r,
        category,
        table,
        match table {
            Some(t) => t.len(),
            None => 0,
        },
    )
}

fn last_slash(s: &str, end: usize) -> (r: Option<usize>)
    requires
        end <= s@.len(),
    ensures
        match r {
            Some(i) => i as int == last_index_before(s@, '/', end as int) && i < end,
            None => last_index_before(s@, '/', end as int) == -1,
        },
{
    let mut i: usize = end;
    while i > 0
        invariant
            i <= end <= s@.len(),
            last_index_before(s@, '/', end as int) == last_index_before(s@, '/', i as int),
        decreases i,
    {
        if s.get_char(i - 1) == '/' {
            return Some(i - 1);
        }
        i = i - 1;
    }
    None
}

/// Splits a reference into its (category, name) target.
fn split_reference(reference: &str) -> (r: Option<(&str, &str)>)
    ensures
        match r {
            Some(p) => reference_target(reference@) == Some((p.0@, p.1@)),
            None => reference_target(reference@) is None,
        },
{
    let n = reference.unicode_len();
    match last_slash(reference, n) {
        None => None,
        Some(i) => {
            let start = match last_slash(reference, i) {
                Some(j) => j + 1,
                None => 0,
            };
            Some((reference.substring_char(start, i), reference.substring_char(i + 1, n)))
        },
    }
}

fn find_entry<'a, T>(t: &'a Vec<(String, RefOr<T>)>, name: &str) -> (r: Option<&'a RefOr<T>>)
    ensures
        lookup_index(t@, name@, 0) < 0 ==> r is None,
        lookup_index(t@, name@, 0) >= 0 ==> r == Some(&t@[lookup_index(t@, name@, 0)].1),
        lookup_index(t@, name@, 0) < t@.len(),
{
    let key = name.to_owned();
    let mut i: usize = 0;
    while i < t.len()
        invariant
            i <= t@.len(),
            key@ == name@,
            lookup_index(t@, name@, 0) == lookup_index(t@, name@, i as int),
        decreases t@.len() - i,
    {
        if t[i].0 == key {
            return Some(&t[i].1);
        }
        i = i + 1;
    }
    None
}

fn lookup<'a, T>(reference: &str, category: &str, table: Option<&'a Vec<(String, RefOr<T>)>>) -> (r:
    Option<&'a RefOr<T>>)
    ensures
        deref_opt(r) == lookup_step(reference@, category@, table_view(table)),
{
    match split_reference(reference) {
        None => None,
        Some((cat, name)) => {
            if cat.to_owned() != category.to_owned() {
                return None;
            }
            match table {
                None => None,
                Some(t) => find_entry(t, name),
            }
        },
    }
}

fn resolve_with_fuel<'a, T>(
    r: &'a RefOr<T>,
    category: &str,
    table: Option<&'a Vec<(String, RefOr<T>)>>,
    fuel: usize,
) -> (res: Option<&'a T>)
    ensures
        deref_opt(res) == resolve_fuel(*r, category@, table_view(table), fuel as nat),
    decreases fuel,
{
    match r {
        RefOr::Item(x) => Some(x),
        RefOr::Reference(s) => {
            if fuel == 0 {
                return None;
            }
            match lookup(s.as_str(), category, table) {
                None => None,
                Some(next) => resolve_with_fuel(next, category, table, fuel - 1),
            }
        },
    }
}

/// Follows a chain of references through `table`, accepting only references whose
/// category is `category`, until a literal item is reached. `None` when the chain
/// breaks (a malformed reference, another category, an unknown name, no table)
/// or never reaches a literal.
pub fn reference_resolver<'a, T>(
    r: &'a RefOr<T>,
    category: &str,
    table: Option<&'a Vec<(String, RefOr<T>)>>,
) -> (res: Option<&'a T>)
    ensures
        deref_opt(res) == resolved(*r, category@, table_view(table)),
        forall|k: nat|
            (#[trigger] resolve_fuel(*r, category@, table_view(table), k)) is Some ==> deref_opt(
                res,
            ) == resolve_fuel(*r, category@, table_view(table), k),
{
    let fuel = match table {
        Some(t) => t.len(),
        None => 0,
    };
    let res = resolve_with_fuel(r, category, table, fuel);
    proof {
        assert forall|k: nat|
            (#[trigger] resolve_fuel(*r, category@, table_view(table), k)) is Some implies deref_opt(
            res,
        ) == resolve_fuel(*r, category@, table_view(table), k) by {
            let x = resolve_fuel(*r, category@, table_view(table), k)->Some_0;
            match table {
                Some(t) => lemma_finite_chain_resolves(*r, category@, t@, k, x),
                None => {},
            }
        }
    }
    res
}

pub open spec fn parameter_table(c: Option<&Components>) -> Option<Seq<(String, RefOr<Parameter>)>> {
    match c {
        Some(c) => Some(c.parameters@),
        None => None,
    }
}

pub open spec fn request_body_table(c: Option<&Components>) -> Option<
    Seq<(String, RefOr<RequestBody>)>,
> {
    match c {
        Some(c) => Some(c.request_bodies@),
        None => None,
    }
}

/// Resolves a parameter against the `parameters` table of the components, when
/// the document has them; without components every reference is unresolved.
pub fn resolve_parameter<'a>(p: &'a RefOr<Parameter>, components: Option<&'a Components>) -> (res:
    Option<&'a Parameter>)
    ensures
        deref_opt(res) == resolved(*p, "parameters"@, parameter_table(components)),
        components is None && p is Reference ==> res is None,
{
    let table = match components {
        Some(c) => Some(&c.parameters),
        None => None,
    };
    reference_resolver(p, "parameters", table)
}

/// Resolves a request body against the request-body table of the components
/// (references of category `request_body`), when the document has them.
pub fn resolve_request_body<'a>(
    b: &'a RefOr<RequestBody>,
    components: Option<&'a Components>,
) -> (res: Option<&'a RequestBody>)
    ensures
        deref_opt(res) == resolved(*b, "request_body"@, request_body_table(components)),
        components is None && b is Reference ==> res is None,
{
    let table = match components {
        Some(c) => Some(&c.request_bodies),
        None => None,
    };
    reference_resolver(b, "request_body", table)
}

/// Resolves a request body through references of category `request_bodies`.
pub fn request_bodies_reference_resolver<'a>(
    b: &'a RefOr<RequestBody>,
    components: &'a Components,
) -> (res: Option<&'a RequestBody>)
    ensures
        deref_opt(res) == resolved(*b, "request_bodies"@, Some(components.request_bodies@)),
{
    reference_resolver(b, "request_bodies", Some(&components.request_bodies))
}

/// Resolves a schema through references of category `schemas`.
pub fn schema_reference_resolver<'a>(s: &'a RefOr<Schema>, components: &'a Components) -> (res:
    Option<&'a Schema>)
    ensures
        deref_opt(res) == resolved(*s, "schemas"@, Some(components.schemas@)),
{
    reference_resolver(s, "schemas", Some(&components.schemas))
}

/// The value reached after following `j` references from `r`; `None` once the
/// chain has broken or has stopped at a literal.
pub open spec fn chain<T>(
    r: RefOr<T>,
    category: Seq<char>,
    t: Seq<(String, RefOr<T>)>,
    j: nat,
) -> Option<RefOr<T>>
    decreases j,
{
    if j == 0 {
        Some(r)
    } else {
        match chain(r, category, t, (j - 1) as nat) {
            Some(RefOr::Reference(s)) => lookup_step(s@, category, Some(t)),
            _ => None,
        }
    }
}

/// The table index that the `j`-th step of a chain (`j >= 1`) lands on.
pub open spec fn chain_index<T>(
    r: RefOr<T>,
    category: Seq<char>,
    t: Seq<(String, RefOr<T>)>,
    j: nat,
) -> int {
    match chain(r, category, t, (j - 1) as nat) {
        Some(RefOr::Reference(s)) => match reference_target(s@) {
            Some(target) => lookup_index(t, target.1, 0),
            None => -1,
        },
        _ => -1,
    }
}

proof fn lemma_lookup_index_range<T>(t: Seq<(String, T)>, name: Seq<char>, from: int)
    requires
        0 <= from,
    ensures
        lookup_index(t, name, from) == -1 || (from <= lookup_index(t, name, from) < t.len()),
    decreases t.len() - from,
{
    if from < t.len() && t[from].0@ != name {
        lemma_lookup_index_range(t, name, from + 1);
    }
}

proof fn lemma_chain_shift<T>(
    r: RefOr<T>,
    next: RefOr<T>,
    category: Seq<char>,
    t: Seq<(String, RefOr<T>)>,
    j: nat,
)
    requires
        r matches RefOr::Reference(s) && lookup_step(s@, category, Some(t)) == Some(next),
    ensures
        chain(r, category, t, j + 1) == chain(next, category, t, j),
    decreases j,
{
    assert(chain(r, category, t, 0) == Some(r));
    if j > 0 {
        lemma_chain_shift(r, next, category, t, (j - 1) as nat);
        assert(chain(r, category, t, j) == chain(next, category, t, (j - 1) as nat));
        assert(chain(r, category, t, j + 1) == match chain(r, category, t, j) {
            Some(RefOr::Reference(s)) => lookup_step(s@, category, Some(t)),
            _ => None,
        });
    }
}

/// A resolution within `k` steps gives a chain that stops at the literal after
/// `m <= k` references.
proof fn lemma_chain_of_fuel<T>(
    r: RefOr<T>,
    category: Seq<char>,
    t: Seq<(String, RefOr<T>)>,
    k: nat,
    x: T,
) -> (m: nat)
    requires
        resolve_fuel(r, category, Some(t), k) == Some(x),
    ensures
        m <= k,
        chain(r, category, t, m) == Some(RefOr::Item(x)),
        forall|j: nat| j < m ==> (#[trigger] chain(r, category, t, j)) matches Some(
            RefOr::Reference(_),
        ),
    decreases k,
{
    match r {
        RefOr::Item(_) => 0,
        RefOr::Reference(s) => {
            let next = lookup_step(s@, category, Some(t))->Some_0;
            let m1 = lemma_chain_of_fuel(next, category, t, (k - 1) as nat, x);
            lemma_chain_shift(r, next, category, t, m1);
            assert forall|j: nat| j < m1 + 1 implies (#[trigger] chain(
                r,
                category,
                t,
                j,
            )) matches Some(RefOr::Reference(_)) by {
                if j > 0 {
                    lemma_chain_shift(r, next, category, t, (j - 1) as nat);
                    assert(chain(next, category, t, (j - 1) as nat) matches Some(
                        RefOr::Reference(_),
                    ));
                }
            }
            m1 + 1
        },
    }
}

/// A chain that stops at a literal after `m` references resolves with any fuel
/// of at least `m`.
proof fn lemma_fuel_of_chain<T>(
    r: RefOr<T>,
    category: Seq<char>,
    t: Seq<(String, RefOr<T>)>,
    m: nat,
    f: nat,
    x: T,
)
    requires
        m <= f,
        chain(r, category, t, m) == Some(RefOr::Item(x)),
        forall|j: nat| j < m ==> (#[trigger] chain(r, category, t, j)) matches Some(
            RefOr::Reference(_),
        ),
    ensures
        resolve_fuel(r, category, Some(t), f) == Some(x),
    decreases m,
{
    if m > 0 {
        assert(chain(r, category, t, 0) matches Some(RefOr::Reference(_)));
        let s = r->Reference_0;
        assert(chain(r, category, t, 1) is Some);
        let next = lookup_step(s@, category, Some(t))->Some_0;
        lemma_chain_shift(r, next, category, t, (m - 1) as nat);
        assert forall|j: nat| j < m - 1 implies (#[trigger] chain(
            next,
            category,
            t,
            j,
        )) matches Some(RefOr::Reference(_)) by {
            lemma_chain_shift(r, next, category, t, j);
            assert(chain(r, category, t, j + 1) matches Some(RefOr::Reference(_)));
        }
        lemma_fuel_of_chain(next, category, t, (m - 1) as nat, (f - 1) as nat, x);
    }
}

/// Equal values of a chain stay equal for as long as the chain goes on.
proof fn lemma_chain_periodic<T>(
    r: RefOr<T>,
    category: Seq<char>,
    t: Seq<(String, RefOr<T>)>,
    a: nat,
    b: nat,
    d: nat,
)
    requires
        chain(r, category, t, a) == chain(r, category, t, b),
    ensures
        chain(r, category, t, a + d) == chain(r, category, t, b + d),
    decreases d,
{
    if d > 0 {
        lemma_chain_periodic(r, category, t, a, b, (d - 1) as nat);
        assert(chain(r, category, t, a + d) == chain(r, category, t, b + d)) by {
            assert((a + d - 1) as nat == a + (d - 1) as nat);
            assert((b + d - 1) as nat == b + (d - 1) as nat);
        }
    }
}

/// Each step of a chain lands on a table entry, at its index.
proof fn lemma_chain_step_index<T>(
    r: RefOr<T>,
    category: Seq<char>,
    t: Seq<(String, RefOr<T>)>,
    j: nat,
)
    requires
        j >= 1,
        chain(r, category, t, j) is Some,
    ensures
        0 <= chain_index(r, category, t, j) < t.len(),
        chain(r, category, t, j) == Some(t[chain_index(r, category, t, j)].1),
{
    let s = chain(r, category, t, (j - 1) as nat)->Some_0->Reference_0;
    let target = reference_target(s@)->Some_0;
    lemma_lookup_index_range(t, target.1, 0);
}

/// A chain that reaches a literal lands on distinct table entries, so it
/// follows at most as many references as the table has entries.
proof fn lemma_chain_bounded<T>(
    r: RefOr<T>,
    category: Seq<char>,
    t: Seq<(String, RefOr<T>)>,
    m: nat,
    x: T,
)
    requires
        chain(r, category, t, m) == Some(RefOr::Item(x)),
        forall|j: nat| j < m ==> (#[trigger] chain(r, category, t, j)) matches Some(
            RefOr::Reference(_),
        ),
    ensures
        m <= t.len(),
{
    let idxs = Seq::new(m, |j: int| chain_index(r, category, t, (j + 1) as nat));
    assert forall|a: int, b: int| 0 <= a < b < m implies idxs[a] != idxs[b] by {
        let a1 = (a + 1) as nat;
        let b1 = (b + 1) as nat;
        if b1 < m {
            assert(chain(r, category, t, b1) matches Some(RefOr::Reference(_)));
        }
        assert(chain(r, category, t, a1) matches Some(RefOr::Reference(_)));
        lemma_chain_step_index(r, category, t, a1);
        lemma_chain_step_index(r, category, t, b1);
        if idxs[a] == idxs[b] {
            let d = (m - b1) as nat;
            lemma_chain_periodic(r, category, t, a1, b1, d);
            assert(chain(r, category, t, (a1 + d) as nat) matches Some(RefOr::Reference(_)));
        }
    }
    assert(idxs.no_duplicates());
    idxs.unique_seq_to_set();
    assert forall|i: int| idxs.to_set().contains(i) implies set_int_range(0, t.len() as int).contains(
        i,
    ) by {
        let j = choose|j: int| 0 <= j < idxs.len() && idxs[j] == i;
        lemma_chain_step_index(r, category, t, (j + 1) as nat);
    }
    lemma_int_range(0, t.len() as int);
    lemma_len_subset(idxs.to_set(), set_int_range(0, t.len() as int));
}

/// A reference chain of any finite length that ends at a literal resolves to
/// that literal.
pub proof fn lemma_finite_chain_resolves<T>(
    r: RefOr<T>,
    category: Seq<char>,
    t: Seq<(String, RefOr<T>)>,
    k: nat,
    x: T,
)
    requires
        resolve_fuel(r, category, Some(t), k) == Some(x),
    ensures
        resolved(r, category, Some(t)) == Some(x),
{
    let m = lemma_chain_of_fuel(r, category, t, k, x);
    lemma_chain_bounded(r, category, t, m, x);
    lemma_fuel_of_chain(r, category, t, m, t.len(), x);
}

/// Without a table no reference resolves.
pub proof fn lemma_unresolved_without_table<T>(s: String, category: Seq<char>)
    ensures
        resolved(RefOr::<T>::Reference(s), category, None) is None,
{
}

} // verus!

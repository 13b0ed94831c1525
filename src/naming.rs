use convert_case::{Case, Casing};
use vstd::prelude::*;
use vstd::string::*;

verus! {

/// What snake-case conversion makes of a sequence of characters.
pub uninterp spec fn snake_case_of(s: Seq<char>) -> Seq<char>;

/// Relies on convert_case's `Casing::to_case` with `Case::Snake`: the result is a
/// function of the characters of `s` alone.
#[verifier::external_body]
pub(crate) fn to_snake_case(s: &str) -> (r: String)
    ensures
        r@ == snake_case_of(s@),
{
    s.to_case(Case::Snake)
}

/// Index of the first `c` in `s` at or after `from`, or -1 when there is none.
pub open spec fn find_from(s: Seq<char>, c: char, from: int) -> int
    decreases s.len() - from,
{
    if from < 0 || from >= s.len() {
        -1
    } else if s[from] == c {
        from
    } else {
        find_from(s, c, from + 1)
    }
}

/// Number of occurrences of `c` in `s` at or after `from`.
pub open spec fn count_from(s: Seq<char>, c: char, from: int) -> nat
    decreases s.len() - from,
{
    if from < 0 || from >= s.len() {
        0
    } else {
        (if s[from] == c { 1nat } else { 0nat }) + count_from(s, c, from + 1)
    }
}

/// One rewriting step: the first `{` and the next `}` after it enclose a
/// placeholder name, which becomes `:` followed by its snake-case form. An
/// opening brace without a closing one is dropped.
pub open spec fn placeholder_step(s: Seq<char>) -> Seq<char> {
    let i = find_from(s, '{', 0);
    if i < 0 {
        s
    } else {
        let j = find_from(s, '}', i + 1);
        if j < 0 {
            s.subrange(0, i) + s.subrange(i + 1, s.len() as int)
        } else {
            s.subrange(0, i) + seq![':'] + snake_case_of(s.subrange(i + 1, j)) + s.subrange(
                j + 1,
                s.len() as int,
            )
        }
    }
}

pub open spec fn placeholder_steps(s: Seq<char>, n: nat) -> Seq<char>
    decreases n,
{
    if n == 0 {
        s
    } else {
        placeholder_steps(placeholder_step(s), (n - 1) as nat)
    }
}

/// The normalized form of a path template: one placeholder step for each opening
/// brace of the template (each step consumes one brace).
pub open spec fn normalized_path(s: Seq<char>) -> Seq<char> {
    placeholder_steps(s, count_from(s, '{', 0))
}

/// A content type with every `/` replaced by `_`.
pub open spec fn adjusted_content_type(s: Seq<char>) -> Seq<char> {
    s.map_values(|c: char| if c == '/' { '_' } else { c })
}

proof fn lemma_count_absent(s: Seq<char>, c: char, from: int)
    requires
        0 <= from,
        forall|i: int| from <= i < s.len() ==> s[i] != c,
    ensures
        count_from(s, c, from) == 0,
    decreases s.len() - from,
{
    if from < s.len() {
        lemma_count_absent(s, c, from + 1);
    }
}

fn find_char(s: &str, c: char, from: usize) -> (r: Option<usize>)
    requires
        from <= s@.len(),
    ensures
        match r {
            Some(i) => i as int == find_from(s@, c, from as int) && from <= i < s@.len()
                && s@[i as int] == c,
            None => find_from(s@, c, from as int) == -1,
        },
{
    let n = s.unicode_len();
    let mut i: usize = from;
    while i < n
        invariant
            from <= i <= n,
            n == s@.len(),
            find_from(s@, c, from as int) == find_from(s@, c, i as int),
        decreases n - i,
    {
        if s.get_char(i) == c {
            return Some(i);
        }
        i = i + 1;
    }
    None
}

fn count_char(s: &str, c: char) -> (r: usize)
    ensures
        r as nat == count_from(s@, c, 0),
{
    let n = s.unicode_len();
    let mut i: usize = n;
    let mut k: usize = 0;
    while i > 0
        invariant
            i <= n,
            n == s@.len(),
            k as nat == count_from(s@, c, i as int),
            k <= n - i,
        decreases i,
    {
        i = i - 1;
        if s.get_char(i) == c {
            k = k + 1;
        }
    }
    k
}

fn rewrite_first_placeholder(s: &str) -> (r: String)
    ensures
        r@ == placeholder_step(s@),
{
    let n = s.unicode_len();
    match find_char(s, '{', 0) {
        None => s.to_string(),
        Some(i) => {
            let mut r = s.substring_char(0, i).to_string();
            match find_char(s, '}', i + 1) {
                None => {
                    r.append(s.substring_char(i + 1, n));
                },
                Some(j) => {
                    let name = to_snake_case(s.substring_char(i + 1, j));
                    r.append(":");
                    r.append(name.as_str());
                    r.append(s.substring_char(j + 1, n));
                    proof {
                        reveal_strlit(":");
                    }
                },
            }
            r
        },
    }
}

/// Rewrites `{name}` placeholders of a path template into `:name_in_snake_case`
/// segments; a template without `{` is returned as it is.
pub fn modify_path_template(path: &str) -> (r: String)
    ensures
        r@ == normalized_path(path@),
        (forall|i: int| 0 <= i < path@.len() ==> path@[i] != '{') ==> r@ == path@,
{
    proof {
        if forall|i: int| 0 <= i < path@.len() ==> path@[i] != '{' {
            lemma_count_absent(path@, '{', 0);
        }
    }
    let steps = count_char(path, '{');
    let mut cur = path.to_string();
    let mut k: usize = 0;
    while k < steps
        invariant
            k <= steps,
            steps as nat == count_from(path@, '{', 0),
            placeholder_steps(path@, steps as nat) == placeholder_steps(
                cur@,
                (steps - k) as nat,
            ),
        decreases steps - k,
    {
        let next = rewrite_first_placeholder(cur.as_str());
        cur = next;
        k = k + 1;
    }
    cur
}

/// Turns a media type into an identifier fragment: `/` becomes `_`.
pub fn adjust_content_type(ct: &str) -> (r: String)
    ensures
        r@ == adjusted_content_type(ct@),
{
    let n = ct.unicode_len();
    let mut r = String::new();
    let mut i: usize = 0;
    while i < n
        invariant
            i <= n,
            n == ct@.len(),
            r@ == adjusted_content_type(ct@.subrange(0, i as int)),
        decreases n - i,
    {
        proof {
            reveal_strlit("_");
        }
        if ct.get_char(i) == '/' {
            r.append("_");
        } else {
            r.append(ct.substring_char(i, i + 1));
        }
        assert(ct@.subrange(0, i + 1) =~= ct@.subrange(0, i as int) + seq![ct@[i as int]]);
        assert(adjusted_content_type(ct@.subrange(0, i + 1)) =~= adjusted_content_type(
            ct@.subrange(0, i as int),
        ) + seq![if ct@[i as int] == '/' { '_' } else { ct@[i as int] }]);
        i = i + 1;
    }
    assert(ct@.subrange(0, n as int) =~= ct@);
    r
}

} // verus!

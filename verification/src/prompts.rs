//! The prompt catalog: records with an `act` and a `prompt` field, read from
//! CSV documents of the form
//! ```text
//! "act","prompt"
//! ```
//! gathered from various sources.
//!
//! The raw CSV records come from the csv crate; which columns the catalog
//! uses, and what each record becomes, is decided and verified here. A
//! malformed record becomes a per-record error and is skipped by
//! `valid_prompts`, never fatal.

use vstd::prelude::*;
use vstd::slice::slice_index_get;

verus! {

/// Where a catalog document comes from. Fetching the bytes of an `Http` or
/// `File` source is the caller's part; the library parses them.
#[derive(Debug, PartialEq, Eq)]
pub enum Source<'a> {
    Http(&'a str),
    File(&'a str),
    Raw(&'a [u8]),
}

/// One catalog record.
#[derive(Clone, Debug, PartialEq, Eq)]
pub struct Prompt {
    pub act: String,
    pub prompt: String,
}

/// Why a record, or a whole source, yielded no prompt.
#[derive(Clone, Debug, PartialEq, Eq)]
pub enum Error {
    /// The record does not fit the catalog format.
    FormatError(String),
    /// The source's bytes could not be fetched.
    LoadError(String),
}

impl Error {
    /// The report carried by either variant.
    pub fn message(&self) -> (r: &String)
        ensures
            match self {
                Error::FormatError(m) => r@ == m@,
                Error::LoadError(m) => r@ == m@,
            },
    {
        match self {
            Error::FormatError(m) => m,
            Error::LoadError(m) => m,
        }
    }
}

/// The records a CSV document holds: for each record its fields, or the
/// reader's report where the record could not be read. This is what the csv
/// crate computes from the bytes alone.
pub uninterp spec fn csv_records_of(b: Seq<u8>) -> Seq<Result<Seq<Seq<char>>, Seq<char>>>;

/// A raw record list, seen as plain values.
pub open spec fn records_view(rs: Seq<Result<Vec<String>, String>>) -> Seq<
    Result<Seq<Seq<char>>, Seq<char>>,
> {
    rs.map_values(
        |r: Result<Vec<String>, String>|
            match r {
                Ok(fields) => Ok(fields.deep_view()),
                Err(m) => Err(m@),
            },
    )
}

/// Relies on csv::ReaderBuilder and csv::Reader: the records of a CSV
/// document are a function of its bytes alone; each comes back as its
/// fields, or as the reader's error report for that record.
#[verifier::external_body]
fn read_csv_records(b: &[u8]) -> (r: Vec<Result<Vec<String>, String>>)
    ensures
        records_view(r@) == csv_records_of(b@),
{
    csv::ReaderBuilder::new()
        .has_headers(false)
        .from_reader(b)
        .into_records()
        .map(
            |rec| match rec {
                Ok(rec) => Ok(rec.iter().map(|field| field.to_string()).collect()),
                Err(e) => Err(e.to_string()),
            },
        )
        .collect()
}

/// The position of the first column named `name`, if any.
pub open spec fn find_field(h: Seq<Seq<char>>, name: Seq<char>) -> Option<int>
    decreases h.len(),
{
    if h.len() == 0 {
        None
    } else if h[0] == name {
        Some(0int)
    } else {
        match find_field(h.drop_first(), name) {
            Some(i) => Some(i + 1),
            None => None,
        }
    }
}

proof fn lemma_find_field(h: Seq<Seq<char>>, name: Seq<char>)
    ensures
        match find_field(h, name) {
            Some(i) => 0 <= i < h.len() && h[i] == name && (forall|j: int|
                0 <= j < i ==> h[j] != name),
            None => forall|j: int| 0 <= j < h.len() ==> h[j] != name,
        },
    decreases h.len(),
{
    if h.len() > 0 && h[0] != name {
        let t = h.drop_first();
        lemma_find_field(t, name);
        match find_field(t, name) {
            Some(i) => {
                assert(h[i + 1] == t[i]);
                assert forall|j: int| 0 <= j < i + 1 implies h[j] != name by {
                    if j > 0 {
                        assert(t[j - 1] != name);
                        assert(h[j] == t[j - 1]);
                    }
                }
            },
            None => {
                assert forall|j: int| 0 <= j < h.len() implies h[j] != name by {
                    if j > 0 {
                        assert(t[j - 1] != name);
                        assert(h[j] == t[j - 1]);
                    }
                }
            },
        }
    }
}

/// The message a record gets when the catalog's columns cannot be read
/// from it.
pub open spec fn missing_column_msg() -> Seq<char> {
    "record has no act and prompt columns"@
}

/// What one raw record contributes to the catalog, given the header row:
/// its `act` and `prompt` fields, or a per-record error.
pub open spec fn row_spec(h: Seq<Seq<char>>, row: Result<Seq<Seq<char>>, Seq<char>>) -> Result<
    (Seq<char>, Seq<char>),
    Seq<char>,
> {
    match row {
        Ok(fields) => match (find_field(h, "act"@), find_field(h, "prompt"@)) {
            (Some(ai), Some(pi)) => if ai < fields.len() && pi < fields.len() {
                Ok((fields[ai], fields[pi]))
            } else {
                Err(missing_column_msg())
            },
            _ => Err(missing_column_msg()),
        },
        Err(m) => Err(m),
    }
}

/// The catalog a record list denotes: the first record names the columns,
/// every further record is read under it. A document with no records is an
/// empty catalog; one whose header could not be read is a single error.
pub open spec fn catalog_spec(records: Seq<Result<Seq<Seq<char>>, Seq<char>>>) -> Seq<
    Result<(Seq<char>, Seq<char>), Seq<char>>,
> {
    if records.len() == 0 {
        seq![]
    } else {
        match records[0] {
            Ok(h) => records.skip(1).map_values(
                |row: Result<Seq<Seq<char>>, Seq<char>>| row_spec(h, row),
            ),
            Err(m) => seq![Err(m)],
        }
    }
}

/// Whether an exec catalog equals its model: record for record, a prompt
/// with the model's fields, or a format error with the model's report.
pub open spec fn prompt_results_match(
    r: Seq<Result<Prompt, Error>>,
    m: Seq<Result<(Seq<char>, Seq<char>), Seq<char>>>,
) -> bool {
    &&& r.len() == m.len()
    &&& forall|i: int|
        0 <= i < r.len() ==> match #[trigger] r[i] {
            Ok(p) => m[i] == Ok::<(Seq<char>, Seq<char>), Seq<char>>((p.act@, p.prompt@)),
            Err(e) => e matches Error::FormatError(msg) && m[i] == Err::<
                (Seq<char>, Seq<char>),
                Seq<char>,
            >(msg@),
        }
}

/// The first column whose name is `name`, as the header row's fields hold it.
fn find_column(h: &Vec<String>, name: &String) -> (r: Option<usize>)
    ensures
        match r {
            Some(i) => find_field(h.deep_view(), name@) == Some(i as int),
            None => find_field(h.deep_view(), name@) is None,
        },
{
    proof {
        lemma_find_field(h.deep_view(), name@);
    }
    let n = h.len();
    let mut i: usize = 0;
    while i < n
        invariant
            i <= n,
            n == h@.len(),
            forall|j: int| 0 <= j < i ==> h.deep_view()[j] != name@,
        decreases n - i,
    {
        let field = slice_index_get(h.as_slice(), i);
        if *field == *name {
            proof {
                lemma_find_field(h.deep_view(), name@);
                assert(h.deep_view()[i as int] == name@);
                match find_field(h.deep_view(), name@) {
                    Some(k) => {
                        if k < i as int {
                            assert(h.deep_view()[k] != name@);
                        } else if k > i as int {
                            assert(h.deep_view()[i as int] != name@);
                        }
                    },
                    None => {
                        assert(h.deep_view()[i as int] != name@);
                    },
                }
            }
            return Some(i);
        }
        i = i + 1;
    }
    None
}

pub struct PromptLoader {}

impl PromptLoader {
    /// Parses the bytes of one catalog document into its records: a prompt
    /// for every record whose `act` and `prompt` fields can be read under
    /// the document's header row, a `FormatError` for every other record.
    pub fn parse_bytes(b: Vec<u8>) -> (r: Vec<Result<Prompt, Error>>)
        ensures
            prompt_results_match(r@, catalog_spec(csv_records_of(b@))),
    {
        let raw = read_csv_records(b.as_slice());
        let ghost model = catalog_spec(csv_records_of(b@));
        let mut out: Vec<Result<Prompt, Error>> = Vec::new();
        let n = raw.len();
        if n == 0 {
            return out;
        }
        let first = slice_index_get(raw.as_slice(), 0);
        match first {
            Err(m) => {
                out.push(Err(Error::FormatError(m.clone())));
                proof {
                    assert(model =~= seq![
                        Err::<(Seq<char>, Seq<char>), Seq<char>>(m@),
                    ]);
                }
                out
            },
            Ok(h) => {
                let ghost hd = h.deep_view();
                let act_name: String = "act".to_owned();
                let prompt_name: String = "prompt".to_owned();
                let ai = find_column(h, &act_name);
                let pi = find_column(h, &prompt_name);
                let mut i: usize = 1;
                proof {
                    assert(model == records_view(raw@).skip(1).map_values(
                        |row: Result<Seq<Seq<char>>, Seq<char>>| row_spec(hd, row),
                    ));
                }
                while i < n
                    invariant
                        1 <= i <= n,
                        n == raw@.len(),
                        records_view(raw@)[0] == Ok::<Seq<Seq<char>>, Seq<char>>(hd),
                        model == records_view(raw@).skip(1).map_values(
                            |row: Result<Seq<Seq<char>>, Seq<char>>| row_spec(hd, row),
                        ),
                        model.len() == n - 1,
                        match ai {
                            Some(k) => find_field(hd, "act"@) == Some(k as int),
                            None => find_field(hd, "act"@) is None,
                        },
                        match pi {
                            Some(k) => find_field(hd, "prompt"@) == Some(k as int),
                            None => find_field(hd, "prompt"@) is None,
                        },
                        out@.len() == i - 1,
                        prompt_results_match(out@, model.take(i - 1)),
                    decreases n - i,
                {
                    let ghost row_model = model[i - 1];
                    proof {
                        assert(model[i - 1] == row_spec(hd, records_view(raw@)[i as int]));
                    }
                    let row = slice_index_get(raw.as_slice(), i);
                    match row {
                        Err(m) => {
                            proof {
                                assert(records_view(raw@)[i as int] == Err::<
                                    Seq<Seq<char>>,
                                    Seq<char>,
                                >(m@));
                            }
                            out.push(Err(Error::FormatError(m.clone())));
                        },
                        Ok(fields) => {
                            proof {
                                assert(records_view(raw@)[i as int] == Ok::<
                                    Seq<Seq<char>>,
                                    Seq<char>,
                                >(fields.deep_view()));
                            }
                            let picked = match (ai, pi) {
                                (Some(a), Some(p)) => if a < fields.len() && p < fields.len() {
                                    proof {
                                        assert(fields.deep_view()[a as int] == fields@[a as int]@);
                                        assert(fields.deep_view()[p as int] == fields@[p as int]@);
                                    }
                                    Some(
                                        Prompt {
                                            act: slice_index_get(fields.as_slice(), a).clone(),
                                            prompt: slice_index_get(fields.as_slice(), p).clone(),
                                        },
                                    )
                                } else {
                                    None
                                },
                                _ => None,
                            };
                            match picked {
                                Some(p) => out.push(Ok(p)),
                                None => out.push(
                                    Err(
                                        Error::FormatError(
                                            "record has no act and prompt columns".to_owned(),
                                        ),
                                    ),
                                ),
                            }
                        },
                    }
                    proof {
                        assert(model.take(i as int) =~= model.take(i - 1).push(model[i - 1]));
                    }
                    i = i + 1;
                }
                proof {
                    assert(model.take(n - 1) =~= model);
                }
                out
            },
        }
    }
}

/// What lowering a string returns: the result of the case folding depends on
/// the characters alone.
pub uninterp spec fn lower_of(s: Seq<char>) -> Seq<char>;

/// Relies on str::to_lowercase: the lowercase equivalent of the characters,
/// a function of the characters alone.
#[verifier::external_body]
fn lowercase(s: &str) -> (r: String)
    ensures
        r@ == lower_of(s@),
{
    s.to_lowercase()
}

/// The characters of a string, one by one.
fn chars_vec(s: &str) -> (r: Vec<char>)
    ensures
        r@ == s@,
{
    let n = s.unicode_len();
    let mut out: Vec<char> = Vec::new();
    let mut i: usize = 0;
    while i < n
        invariant
            i <= n,
            n == s@.len(),
            out@ == s@.take(i as int),
        decreases n - i,
    {
        out.push(s.get_char(i));
        proof {
            assert(s@.take(i + 1 as int) =~= s@.take(i as int).push(s@[i as int]));
        }
        i = i + 1;
    }
    proof {
        assert(s@.take(n as int) =~= s@);
    }
    out
}

/// Whether the needle occurs in the haystack starting at `k`.
pub open spec fn occurs_at(h: Seq<char>, n: Seq<char>, k: int) -> bool {
    0 <= k && k + n.len() <= h.len() && h.subrange(k, k + n.len()) == n
}

/// Whether the needle occurs anywhere in the haystack. An empty needle
/// occurs in every haystack.
pub open spec fn has_substring(h: Seq<char>, n: Seq<char>) -> bool {
    exists|k: int| occurs_at(h, n, k)
}

fn occurs_here(h: &Vec<char>, n: &Vec<char>, k: usize) -> (r: bool)
    requires
        k + n@.len() <= h@.len(),
    ensures
        r == occurs_at(h@, n@, k as int),
{
    let m = n.len();
    let hl = h.len();
    let mut j: usize = 0;
    while j < m
        invariant
            j <= m,
            m == n@.len(),
            hl == h@.len(),
            k + m <= hl,
            forall|t: int| 0 <= t < j ==> h@[k + t] == n@[t],
        decreases m - j,
    {
        if *slice_index_get(h.as_slice(), k + j) != *slice_index_get(n.as_slice(), j) {
            proof {
                assert(h@.subrange(k as int, k + m) != n@) by {
                    assert(h@.subrange(k as int, k + m)[j as int] == h@[k + j]);
                }
            }
            return false;
        }
        j = j + 1;
    }
    proof {
        assert(h@.subrange(k as int, k + m) =~= n@);
    }
    true
}

/// Whether the needle occurs anywhere in the haystack.
pub fn contains_chars(h: &Vec<char>, n: &Vec<char>) -> (r: bool)
    ensures
        r == has_substring(h@, n@),
{
    let hl = h.len();
    let nl = n.len();
    if nl > hl {
        proof {
            assert forall|k: int| !occurs_at(h@, n@, k) by {}
        }
        return false;
    }
    if nl == 0 {
        proof {
            assert(h@.subrange(0, 0) =~= n@);
            assert(occurs_at(h@, n@, 0));
        }
        return true;
    }
    let mut k: usize = 0;
    while k <= hl - nl
        invariant
            0 < nl <= hl,
            hl == h@.len(),
            nl == n@.len(),
            k <= hl - nl + 1,
            forall|t: int| 0 <= t < k ==> !occurs_at(h@, n@, t),
        decreases hl - nl + 1 - k,
    {
        if occurs_here(h, n, k) {
            proof {
                assert(has_substring(h@, n@)) by {
                    assert(occurs_at(h@, n@, k as int));
                }
            }
            return true;
        }
        k = k + 1;
    }
    proof {
        assert forall|t: int| !occurs_at(h@, n@, t) by {
            if 0 <= t < k {
            } else if t > hl - nl {
            }
        }
    }
    false
}

/// Whether a catalog entry matches a lowered filter: the filter occurs in
/// the lowercase of its act or in the lowercase of its prompt.
pub open spec fn prompt_matches(p: Prompt, filter_lower: Seq<char>) -> bool {
    has_substring(lower_of(p.act@), filter_lower) || has_substring(lower_of(p.prompt@), filter_lower)
}

fn prompt_matches_filter(p: &Prompt, filter_lower: &Vec<char>) -> (r: bool)
    ensures
        r == prompt_matches(*p, filter_lower@),
{
    let act_lower = lowercase(p.act.as_str());
    let act_chars = chars_vec(act_lower.as_str());
    if contains_chars(&act_chars, filter_lower) {
        return true;
    }
    let prompt_lower = lowercase(p.prompt.as_str());
    let prompt_chars = chars_vec(prompt_lower.as_str());
    contains_chars(&prompt_chars, filter_lower)
}

/// The positions of the entries a filter keeps, in order.
pub open spec fn matching_positions(prompts: Seq<Prompt>, filter_lower: Seq<char>) -> Seq<int>
    decreases prompts.len(),
{
    if prompts.len() == 0 {
        seq![]
    } else {
        matching_positions(prompts.drop_last(), filter_lower) + (if prompt_matches(
            prompts.last(),
            filter_lower,
        ) {
            seq![prompts.len() - 1]
        } else {
            seq![]
        })
    }
}

/// Lists the catalog: the positions of the entries whose act or prompt,
/// lowered, contains the lowered filter, in order. An empty filter keeps
/// every entry.
pub fn list_matching(prompts: &Vec<Prompt>, filter: &str) -> (r: Vec<usize>)
    ensures
        r@.map_values(|u: usize| u as int) == matching_positions(prompts@, lower_of(filter@)),
{
    let filter_lower = lowercase(filter);
    let filter_chars = chars_vec(filter_lower.as_str());
    let ghost f = lower_of(filter@);
    let mut out: Vec<usize> = Vec::new();
    let n = prompts.len();
    let mut i: usize = 0;
    while i < n
        invariant
            i <= n,
            n == prompts@.len(),
            filter_chars@ == f,
            out@.map_values(|u: usize| u as int) == matching_positions(prompts@.take(i as int), f),
        decreases n - i,
    {
        let ghost before = prompts@.take(i as int);
        let ghost after = prompts@.take(i + 1 as int);
        proof {
            assert(after.drop_last() =~= before);
            assert(after.last() == prompts@[i as int]);
        }
        if prompt_matches_filter(slice_index_get(prompts.as_slice(), i), &filter_chars) {
            out.push(i);
            proof {
                assert(out@.map_values(|u: usize| u as int) =~= matching_positions(after, f));
            }
        } else {
            proof {
                assert(out@.map_values(|u: usize| u as int) =~= matching_positions(after, f));
            }
        }
        i = i + 1;
    }
    proof {
        assert(prompts@.take(n as int) =~= prompts@);
    }
    out
}

/// Whether the catalog entry at `j` is the one a user asked for: they name
/// an entry by its position, where their choice reads as a number, and by
/// its `act` field otherwise.
pub open spec fn selected(prompts: Seq<Prompt>, index: Option<usize>, choice: Seq<char>, j: int) -> bool {
    match index {
        Some(k) => j == k,
        None => prompts[j].act@ == choice,
    }
}

/// The first catalog entry the user's choice picks, if any: `index` is the
/// choice read as a number, where it reads as one, and `choice` the choice
/// itself.
pub fn find_selected(prompts: &Vec<Prompt>, index: Option<usize>, choice: &String) -> (r: Option<
    usize,
>)
    ensures
        match r {
            Some(i) => i < prompts@.len() && selected(prompts@, index, choice@, i as int) && (
            forall|j: int| 0 <= j < i ==> !selected(prompts@, index, choice@, j)),
            None => forall|j: int|
                0 <= j < prompts@.len() ==> !selected(prompts@, index, choice@, j),
        },
{
    let n = prompts.len();
    let mut i: usize = 0;
    while i < n
        invariant
            i <= n,
            n == prompts@.len(),
            forall|j: int| 0 <= j < i ==> !selected(prompts@, index, choice@, j),
        decreases n - i,
    {
        let hit = match index {
            Some(k) => i == k,
            None => slice_index_get(prompts.as_slice(), i).act == *choice,
        };
        if hit {
            return Some(i);
        }
        i = i + 1;
    }
    None
}

/// The prompts among a record list, in order. A record that failed to parse
/// contributes nothing: malformed records are skipped, not fatal.
pub open spec fn oks_of(s: Seq<Result<Prompt, Error>>) -> Seq<Prompt>
    decreases s.len(),
{
    if s.len() == 0 {
        seq![]
    } else {
        oks_of(s.drop_last()) + (match s.last() {
            Ok(p) => seq![p],
            Err(_) => seq![],
        })
    }
}

/// Keeps the records that parsed, in their order, and drops the rest.
pub fn valid_prompts(results: Vec<Result<Prompt, Error>>) -> (r: Vec<Prompt>)
    ensures
        r@ == oks_of(results@),
{
    let ghost all = results@;
    let mut work = results;
    let mut rev: Vec<Result<Prompt, Error>> = Vec::new();
    while work.len() > 0
        invariant
            work@.len() + rev@.len() == all.len(),
            work@ == all.take(work@.len() as int),
            forall|j: int| 0 <= j < rev@.len() ==> rev@[j] == all[all.len() - 1 - j],
        decreases work@.len(),
    {
        match work.pop() {
            Some(x) => {
                proof {
                    assert(all.take(work@.len() + 1 as int).last() == all[all.len() - 1 - rev@.len()]);
                    assert(all.take(work@.len() + 1 as int).subrange(0, work@.len() as int) =~= all.take(
                        work@.len() as int,
                    ));
                }
                rev.push(x);
            },
            None => {},
        }
    }
    let mut out: Vec<Prompt> = Vec::new();
    while rev.len() > 0
        invariant
            rev@.len() <= all.len(),
            forall|j: int| 0 <= j < rev@.len() ==> rev@[j] == all[all.len() - 1 - j],
            out@ == oks_of(all.take(all.len() - rev@.len())),
        decreases rev@.len(),
    {
        let ghost k = all.len() - rev@.len();
        match rev.pop() {
            Some(x) => {
                proof {
                    assert(x == all[k]);
                    assert(all.take(k + 1).drop_last() =~= all.take(k as int));
                    assert(all.take(k + 1).last() == all[k]);
                }
                match x {
                    Ok(p) => out.push(p),
                    Err(_) => {},
                }
            },
            None => {},
        }
    }
    proof {
        assert(all.take(all.len() as int) =~= all);
    }
    out
}

} // verus!

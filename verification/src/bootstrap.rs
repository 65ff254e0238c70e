//! The decisions of the bootstrap command: which sample to load, which tables it makes,
//! which tables are still being created, and how sample items are cut into batches.
use vstd::prelude::*;
use crate::batch::WriteRequest;
use crate::value::strings_view;

verus! {

/// A set of sample tables and data.
#[derive(Debug, Clone, Copy, PartialEq, Eq, Structural)]
pub enum Sample {
    /// The sample tables of the DynamoDB developer guide.
    Public,
    /// The `Movie` table.
    Movie,
}

/// The names of the samples, the default first.
pub fn list_samples() -> (r: Vec<String>)
    ensures
        strings_view(r@) == seq!["public"@, "movie"@],
{
    let mut r: Vec<String> = Vec::new();
    r.push(String::from_str("public"));
    r.push(String::from_str("movie"));
    assert(strings_view(r@) =~= seq!["public"@, "movie"@]);
    r
}

/// The sample that a name given to `--sample` picks: `public` when none is given;
/// `None` for an unknown name.
pub open spec fn sample_named(name: Option<Seq<char>>) -> Option<Sample> {
    match name {
        None => Some(Sample::Public),
        Some(s) => if s == "public"@ {
            Some(Sample::Public)
        } else if s == "movie"@ {
            Some(Sample::Movie)
        } else {
            None
        },
    }
}

/// The sample that the `--sample` option picks.
pub fn sample_from_name(sample: &Option<String>) -> (r: Option<Sample>)
    ensures
        r == sample_named(
            match sample {
                Some(s) => Some(s@),
                None => None,
            },
        ),
{
    proof {
        reveal_strlit("public");
        reveal_strlit("movie");
    }
    match sample {
        None => Some(Sample::Public),
        Some(s) => {
            if *s == String::from_str("public") {
                Some(Sample::Public)
            } else if *s == String::from_str("movie") {
                Some(Sample::Movie)
            } else {
                None
            }
        },
    }
}

/// The tables of the public sample, each with its keys (`name,type`, the partition key
/// first).
pub open spec fn default_sample_tables_spec() -> Seq<(Seq<char>, Seq<Seq<char>>)> {
    seq![
        ("ProductCatalog"@, seq!["Id,N"@]),
        ("Forum"@, seq!["Name,S"@]),
        ("Thread"@, seq!["ForumName,S"@, "Subject,S"@]),
        ("Reply"@, seq!["Id,S"@, "ReplyDateTime,S"@]),
    ]
}

pub open spec fn tables_view(v: Seq<(String, Vec<String>)>) -> Seq<(Seq<char>, Seq<Seq<char>>)> {
    v.map_values(|t: (String, Vec<String>)| (t.0@, strings_view(t.1@)))
}

fn keys_of(a: &str, b: Option<&str>) -> (r: Vec<String>)
    ensures
        strings_view(r@) == match b {
            Some(y) => seq![a@, y@],
            None => seq![a@],
        },
{
    let mut r: Vec<String> = Vec::new();
    r.push(String::from_str(a));
    if let Some(y) = b {
        r.push(String::from_str(y));
    }
    assert(strings_view(r@) =~= match b {
        Some(y) => seq![a@, y@],
        None => seq![a@],
    });
    r
}

/// The tables of the public sample and their keys.
pub fn default_sample_tables() -> (r: Vec<(String, Vec<String>)>)
    ensures
        tables_view(r@) == default_sample_tables_spec(),
{
    let mut r: Vec<(String, Vec<String>)> = Vec::new();
    r.push((String::from_str("ProductCatalog"), keys_of("Id,N", None)));
    r.push((String::from_str("Forum"), keys_of("Name,S", None)));
    r.push((String::from_str("Thread"), keys_of("ForumName,S", Some("Subject,S"))));
    r.push((String::from_str("Reply"), keys_of("Id,S", Some("ReplyDateTime,S"))));
    assert(tables_view(r@) =~= default_sample_tables_spec());
    r
}

/// The tables of `tables` whose status, at the same position of `statuses`, is not
/// `ACTIVE`, in order.
pub open spec fn still_creating_spec(tables: Seq<Seq<char>>, statuses: Seq<Seq<char>>) -> Seq<Seq<char>>
    decreases tables.len(),
{
    if tables.len() == 0 || statuses.len() == 0 {
        Seq::empty()
    } else {
        let n = if tables.len() < statuses.len() {
            tables.len()
        } else {
            statuses.len()
        };
        let rest = still_creating_spec(tables.take(n - 1), statuses.take(n - 1));
        if statuses[n - 1] == "ACTIVE"@ {
            rest
        } else {
            rest.push(tables[n - 1])
        }
    }
}

/// The tables that are still being created, from their statuses.
pub fn still_creating(tables: &Vec<String>, statuses: &Vec<String>) -> (r: Vec<String>)
    ensures
        strings_view(r@) == still_creating_spec(strings_view(tables@), strings_view(statuses@)),
{
    proof {
        reveal_strlit("ACTIVE");
    }
    let n = if tables.len() < statuses.len() {
        tables.len()
    } else {
        statuses.len()
    };
    let ghost tv = strings_view(tables@);
    let ghost sv = strings_view(statuses@);
    let active = String::from_str("ACTIVE");
    let mut r: Vec<String> = Vec::new();
    let mut i: usize = 0;
    assert(still_creating_spec(tv.take(0), sv.take(0)) =~= Seq::<Seq<char>>::empty());
    assert(strings_view(r@) =~= Seq::<Seq<char>>::empty());
    while i < n
        invariant
            i <= n,
            n <= tables.len(),
            n <= statuses.len(),
            tv == strings_view(tables@),
            sv == strings_view(statuses@),
            active@ == "ACTIVE"@,
            strings_view(r@) == still_creating_spec(tv.take(i as int), sv.take(i as int)),
        decreases n - i,
    {
        assert(tv.take(i + 1).take(i as int) =~= tv.take(i as int));
        assert(sv.take(i + 1).take(i as int) =~= sv.take(i as int));
        if statuses[i] != active {
            let ghost before = r@;
            r.push(tables[i].clone());
            assert(strings_view(r@) =~= strings_view(before).push(tables@[i as int]@));
        }
        i = i + 1;
    }
    proof {
        lemma_still_creating_take(tv, sv, n as int);
    }
    r
}

proof fn lemma_still_creating_take(tables: Seq<Seq<char>>, statuses: Seq<Seq<char>>, n: int)
    requires
        n == if tables.len() < statuses.len() {
            tables.len() as int
        } else {
            statuses.len() as int
        },
    ensures
        still_creating_spec(tables.take(n), statuses.take(n)) == still_creating_spec(tables, statuses),
{
    if n > 0 {
        assert(tables.take(n).take(n - 1) =~= tables.take(n - 1));
        assert(statuses.take(n).take(n - 1) =~= statuses.take(n - 1));
    } else {
        assert(tables.take(n).len() == 0);
    }
}

/// How many items the movie sample writes in one call.
pub const MOVIE_BATCH_SIZE: usize = 25;

/// Cuts the requests of the movie sample into batches of 25, in order; the last batch
/// holds the rest, and is empty when the requests fill the other batches.
pub fn movie_batches(requests: Vec<WriteRequest>) -> (r: Vec<Vec<WriteRequest>>)
    ensures
        r.len() == requests.len() / 25 + 1,
        forall|b: int|
            0 <= b < r.len() ==> (#[trigger] r@[b])@ == requests@.subrange(
                25 * b,
                if b == r.len() - 1 {
                    requests.len() as int
                } else {
                    25 * b + 25
                },
            ),
{
    let ghost orig = requests@;
    let n = requests.len();
    let mut rest = requests;
    let mut out: Vec<Vec<WriteRequest>> = Vec::new();
    let mut batch: Vec<WriteRequest> = Vec::new();
    let mut k: usize = 0;
    while k < n
        invariant
            k <= n,
            n == orig.len(),
            rest.len() == n,
            forall|j: int| k <= j < n ==> #[trigger] rest@[j] == orig[j],
            out.len() == k / 25,
            batch@ == orig.subrange(25 * (k / 25) as int, k as int),
            batch.len() < 25,
            forall|b: int| 0 <= b < out.len() ==> (#[trigger] out@[b])@ == orig.subrange(25 * b, 25 * b + 25),
        decreases n - k,
    {
        let mut item = WriteRequest::Put(Vec::new());
        std::mem::swap(&mut item, &mut rest[k]);
        assert(item == orig[k as int]);
        let ghost before = batch@;
        batch.push(item);
        assert(batch@ =~= orig.subrange(25 * (k / 25) as int, k + 1));
        if batch.len() == MOVIE_BATCH_SIZE {
            let full = batch;
            batch = Vec::new();
            out.push(full);
            assert((k + 1) / 25 == k / 25 + 1);
            assert(25 * (k / 25) + 25 == k + 1);
        } else {
            assert((k + 1) / 25 == k / 25);
        }
        k = k + 1;
    }
    assert(25 * (n / 25) <= n);
    out.push(batch);
    out
}

} // verus!

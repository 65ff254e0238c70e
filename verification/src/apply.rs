//! Finding the CloudFormation template of `dy apply`.
use vstd::prelude::*;

verus! {

/// Tells whether a file exists; `dy apply` asks it about each template name.
pub trait PathExistenceChecker {
    /// Whether the checker may answer `exists` when asked about `path`. An
    /// implementation that states nothing of its answers keeps this default, which
    /// allows either answer for every path.
    open spec fn reports(&self, path: Seq<char>, exists: bool) -> bool {
        true
    }

    /// Whether `path` exists, as the checker sees it.
    fn path_exists(&self, path: &str) -> (b: bool)
        ensures
            self.reports(path@, b),
    ;
}

/// The template file names, in the order in which they are looked for.
pub open spec fn acceptable_file(i: int) -> Seq<char> {
    if i == 0 {
        "cfn.yaml"@
    } else if i == 1 {
        "cfn.yml"@
    } else {
        "cfn.json"@
    }
}

/// The first of `cfn.yaml`, `cfn.yml` and `cfn.json` that the checker reports to exist.
/// The checker is asked in that order and no more once a file is found.
pub fn check_template<C: PathExistenceChecker>(checker: &C) -> (r: Option<&'static str>)
    ensures
        match r {
            Some(f) => exists|k: int|
                0 <= k < 3 && f@ == acceptable_file(k) && checker.reports(acceptable_file(k), true)
                    && forall|j: int| 0 <= j < k ==> checker.reports(acceptable_file(j), false),
            None => forall|j: int| 0 <= j < 3 ==> checker.reports(acceptable_file(j), false),
        },
{
    let files: [&'static str; 3] = ["cfn.yaml", "cfn.yml", "cfn.json"];
    proof {
        reveal_strlit("cfn.yaml");
        reveal_strlit("cfn.yml");
        reveal_strlit("cfn.json");
    }
    assert(forall|j: int| 0 <= j < 3 ==> (#[trigger] files@[j])@ == acceptable_file(j));
    let mut i: usize = 0;
    while i < 3
        invariant
            i <= 3,
            forall|j: int| 0 <= j < 3 ==> (#[trigger] files@[j])@ == acceptable_file(j),
            forall|j: int| 0 <= j < i ==> checker.reports(#[trigger] acceptable_file(j), false),
        decreases 3 - i,
    {
        let f = files[i];
        assert(f@ == acceptable_file(i as int));
        if checker.path_exists(f) {
            return Some(f);
        }
        i = i + 1;
    }
    None
}

} // verus!

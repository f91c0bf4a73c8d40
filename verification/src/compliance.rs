//! Compliance rules: a rule names a path pattern, the file permissions it
//! demands, and files that must (or must not) exist under the pattern. The
//! decision of which required files are missing from a traversal is made
//! here; the traversal itself is the collaborator's.

use vstd::prelude::*;

verus! {

/// One compliance rule.
pub struct ComplianceRule {
    pub path_regex: String,
    pub file_permissions: u32,
    pub required_files: Vec<String>,
    pub non_existent_files: Vec<String>,
}

impl ComplianceRule {
    /// Creates a rule from its four parts.
    pub fn new(
        path_regex: String,
        file_permissions: u32,
        required_files: Vec<String>,
        non_existent_files: Vec<String>,
    ) -> (r: ComplianceRule)
        ensures
            r.path_regex == path_regex,
            r.file_permissions == file_permissions,
            r.required_files == required_files,
            r.non_existent_files == non_existent_files,
    {
        ComplianceRule { path_regex, file_permissions, required_files, non_existent_files }
    }
}

/// A traversal-reported permission mode violates a rule iff it differs from
/// the mode the rule demands.
pub fn permissions_violation(mode: u32, rule: &ComplianceRule) -> (r: bool)
    ensures
        r == (mode != rule.file_permissions),
{
    mode != rule.file_permissions
}

/// `f` stands among the seen files.
pub open spec fn seen_contains(seen: Seq<Seq<char>>, f: Seq<char>) -> bool {
    exists|i: int| 0 <= i < seen.len() && seen[i] == f
}

/// The required files absent from the seen ones, in order.
pub open spec fn missing_spec(required: Seq<Seq<char>>, seen: Seq<Seq<char>>) -> Seq<Seq<char>>
    decreases required.len(),
{
    if required.len() == 0 {
        Seq::empty()
    } else {
        let prev = missing_spec(required.drop_last(), seen);
        if seen_contains(seen, required.last()) {
            prev
        } else {
            prev.push(required.last())
        }
    }
}

/// Decides whether `f` stands among the seen files.
fn contains_string(seen: &Vec<String>, f: &String) -> (r: bool)
    ensures
        r == seen_contains(seen.deep_view(), f@),
{
    let n = seen.len();
    let mut i: usize = 0;
    while i < n
        invariant
            n == seen@.len(),
            i <= n,
            forall|j: int| 0 <= j < i ==> seen@[j]@ != f@,
        decreases n - i,
    {
        if seen[i].eq(f) {
            assert(seen.deep_view()[i as int] == f@);
            return true;
        }
        i += 1;
    }
    false
}

/// The required files of a rule that a traversal did not see, in order: the
/// rule's violations by absence.
pub fn missing_required_files(required: &Vec<String>, seen: &Vec<String>) -> (r: Vec<String>)
    ensures
        r.deep_view() == missing_spec(required.deep_view(), seen.deep_view()),
{
    let ghost rseq = required.deep_view();
    let mut out: Vec<String> = Vec::new();
    let n = required.len();
    proof {
        assert(rseq.take(0) =~= Seq::<Seq<char>>::empty());
        assert(out.deep_view() =~= missing_spec(rseq.take(0), seen.deep_view()));
    }
    let mut i: usize = 0;
    while i < n
        invariant
            n == required@.len(),
            rseq == required.deep_view(),
            i <= n,
            out.deep_view() == missing_spec(rseq.take(i as int), seen.deep_view()),
        decreases n - i,
    {
        proof {
            assert(rseq.take(i + 1).drop_last() =~= rseq.take(i as int));
            assert(rseq.take(i + 1).last() == required@[i as int]@);
        }
        if !contains_string(seen, &required[i]) {
            let ghost prev = out.deep_view();
            out.push(required[i].clone());
            proof {
                assert(out.deep_view() =~= prev.push(rseq[i as int]));
            }
        }
        proof {
            assert(out.deep_view() =~= missing_spec(rseq.take(i + 1), seen.deep_view()));
        }
        i += 1;
    }
    proof {
        assert(rseq.take(n as int) =~= rseq);
    }
    out
}

} // verus!

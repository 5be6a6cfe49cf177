//! Splitting the command line at `--`: what comes after it is handed to the
//! launched executable untouched.
use vstd::prelude::*;
use vstd::string::StringExecFns;

verus! {

/// The views of a sequence of strings.
pub open spec fn views(v: Seq<String>) -> Seq<Seq<char>> {
    v.map_values(|s: String| s@)
}

/// Index of the first `--` in `args`, or `args.len()` when there is none.
pub open spec fn separator_index(args: Seq<Seq<char>>) -> int
    decreases args.len(),
{
    if args.len() == 0 {
        0
    } else if args[0] == "--"@ {
        0
    } else {
        1 + separator_index(args.drop_first())
    }
}

/// An argument that asks for a run without user interface.
pub open spec fn is_background_flag(a: Seq<char>) -> bool {
    a == "-b"@ || a == "--background"@
}

proof fn lemma_separator_index(args: Seq<Seq<char>>, i: int)
    requires
        0 <= i <= args.len(),
        forall|j: int| 0 <= j < i ==> args[j] != "--"@,
        i == args.len() || args[i] == "--"@,
    ensures
        separator_index(args) == i,
    decreases i,
{
    if i > 0 {
        lemma_separator_index(args.drop_first(), i - 1);
    }
}

proof fn lemma_separator_bounds(args: Seq<Seq<char>>)
    ensures
        0 <= separator_index(args) <= args.len(),
    decreases args.len(),
{
    if args.len() > 0 {
        lemma_separator_bounds(args.drop_first());
    }
}

fn clone_range(v: &Vec<String>, lo: usize, hi: usize) -> (r: Vec<String>)
    requires
        lo <= hi <= v@.len(),
    ensures
        r@ == v@.subrange(lo as int, hi as int),
{
    let mut r: Vec<String> = Vec::new();
    let mut i: usize = lo;
    while i < hi
        invariant
            lo <= i <= hi <= v@.len(),
            r@ == v@.subrange(lo as int, i as int),
        decreases hi - i,
    {
        r.push(v[i].clone());
        i = i + 1;
        assert(r@ =~= v@.subrange(lo as int, i as int));
    }
    r
}

/// Splits the free arguments at the first `--`: the arguments before it,
/// and those after it when it is there at all (an empty group when `--`
/// comes last, nothing when there is no `--`).
pub fn extra_args(free: &Vec<String>) -> (r: (Vec<String>, Option<Vec<String>>))
    ensures
        ({
            let a = views(free@);
            let k = separator_index(a);
            &&& views(r.0@) == a.take(k)
            &&& k < a.len() ==> r.1 is Some && views(r.1->0@) == a.skip(k + 1)
            &&& k == a.len() ==> r.1 is None
        }),
{
    let sep = String::from_str("--");
    let ghost a = views(free@);
    let mut i: usize = 0;
    while i < free.len() && !(free[i] == sep)
        invariant
            sep@ == "--"@,
            a == views(free@),
            i <= free@.len(),
            forall|j: int| 0 <= j < i ==> a[j] != "--"@,
        decreases free@.len() - i,
    {
        i = i + 1;
    }
    proof {
        lemma_separator_index(a, i as int);
    }
    let lead = clone_range(free, 0, i);
    assert(views(lead@) =~= a.take(i as int));
    if i < free.len() {
        let rest = clone_range(free, i + 1, free.len());
        assert(views(rest@) =~= a.skip(i + 1));
        (lead, Some(rest))
    } else {
        (lead, None)
    }
}

/// Whether the arguments before any `--` ask for a run without user
/// interface (`-b` or `--background`).
pub fn is_background_mode(args: &Vec<String>) -> (r: bool)
    ensures
        r == exists|j: int|
            0 <= j < separator_index(views(args@)) && is_background_flag(
                #[trigger] views(args@)[j],
            ),
{
    let (lead, _extra) = extra_args(args);
    let short = String::from_str("-b");
    let long = String::from_str("--background");
    let ghost a = views(args@);
    let ghost k = separator_index(a);
    proof {
        lemma_separator_bounds(a);
    }
    assert(views(lead@).len() == lead@.len());
    assert(a.take(k).len() == k);
    let mut i: usize = 0;
    while i < lead.len()
        invariant
            short@ == "-b"@,
            long@ == "--background"@,
            a == views(args@),
            k == separator_index(a),
            views(lead@) == a.take(k),
            0 <= k <= a.len(),
            lead@.len() == k,
            i <= lead@.len(),
            forall|j: int| 0 <= j < i ==> !is_background_flag(#[trigger] a[j]),
        decreases lead@.len() - i,
    {
        assert(views(lead@)[i as int] == a[i as int]);
        if lead[i] == short || lead[i] == long {
            assert(lead@[i as int]@ == "-b"@ || lead@[i as int]@ == "--background"@);
            assert(views(lead@)[i as int] == lead@[i as int]@);
            assert(is_background_flag(a[i as int]));
            return true;
        }
        i = i + 1;
    }
    false
}

} // verus!

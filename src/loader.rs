//! The choice of configuration file among an ordered list of candidates.
//!
//! The loader is a state machine: it asks for one candidate to be read at a
//! time, and is told the text that was read or that the candidate could not be
//! resolved or read. The first candidate that is read is parsed and installed,
//! and no later one is asked for, even where it holds no entry. Where none can
//! be read nothing is installed.

use vstd::prelude::*;
use crate::environment::{apply_entries, lemma_apply_entries_twice};
use crate::parse::{contents_entries, entries_view, parse_env_contents, EnvEntry};

verus! {

/// What the loader asks for next.
pub enum LoadStep {
    /// Read the candidate at this position of the list.
    Read(usize),
    /// Install these entries, read from the candidate at `index`; the search is over.
    Install { index: usize, entries: Vec<EnvEntry> },
    /// No candidate could be read; the search is over and nothing is installed.
    NotFound,
}

/// A loader step in mathematical terms.
pub enum StepModel {
    Read(nat),
    Install(nat, Seq<(Seq<char>, Seq<char>)>),
    NotFound,
}

impl View for LoadStep {
    type V = StepModel;

    open spec fn view(&self) -> StepModel {
        match self {
            LoadStep::Read(i) => StepModel::Read(*i as nat),
            LoadStep::Install { index, entries } => StepModel::Install(
                *index as nat,
                entries_view(entries@),
            ),
            LoadStep::NotFound => StepModel::NotFound,
        }
    }
}

/// The first step among `n` candidates.
pub open spec fn first_model(n: nat) -> StepModel {
    if n > 0 {
        StepModel::Read(0)
    } else {
        StepModel::NotFound
    }
}

/// The step after candidate `i` of `n` gave `read`: its text, or `None`
/// where it could not be resolved or read.
pub open spec fn next_model(n: nat, i: nat, read: Option<Seq<char>>) -> StepModel {
    match read {
        Some(c) => StepModel::Install(i, contents_entries(c)),
        None => if i + 1 < n {
            StepModel::Read(i + 1)
        } else {
            StepModel::NotFound
        },
    }
}

/// The candidates read, in order, and the final step, when from `step` on each
/// candidate `i` that the loader asks for gives `reads[i]`.
pub open spec fn drive(n: nat, reads: Seq<Option<Seq<char>>>, step: StepModel, fuel: nat) -> (
    Seq<nat>,
    StepModel,
)
    decreases fuel,
{
    match step {
        StepModel::Read(i) => if fuel == 0 {
            (Seq::empty(), step)
        } else {
            let (rest, last) = drive(n, reads, next_model(n, i, reads[i as int]), (fuel - 1) as nat);
            (seq![i] + rest, last)
        },
        _ => (Seq::empty(), step),
    }
}

/// The candidates read and the final step of a whole search among
/// `reads.len()` candidates, where candidate `i` gives `reads[i]`.
pub open spec fn loader_run(reads: Seq<Option<Seq<char>>>) -> (Seq<nat>, StepModel) {
    drive(reads.len(), reads, first_model(reads.len()), reads.len())
}

/// The environment `m` after the final step `last`.
pub open spec fn settle(m: Map<Seq<char>, Seq<char>>, last: StepModel) -> Map<Seq<char>, Seq<char>> {
    match last {
        StepModel::Install(_, es) => apply_entries(m, es),
        _ => m,
    }
}

/// The text a read gave, in mathematical terms.
pub open spec fn read_view(read: Option<&str>) -> Option<Seq<char>> {
    match read {
        Some(c) => Some(c@),
        None => None,
    }
}

/// The first step of a search among `n` candidates.
pub fn first_step(n: usize) -> (r: LoadStep)
    ensures
        r@ == first_model(n as nat),
{
    if n > 0 {
        LoadStep::Read(0)
    } else {
        LoadStep::NotFound
    }
}

/// The step after candidate `index` of `n` gave `read`: the text read from
/// it, or `None` where it could not be resolved or read.
pub fn next_step(n: usize, index: usize, read: Option<&str>) -> (r: LoadStep)
    requires
        index < n,
    ensures
        r@ == next_model(n as nat, index as nat, read_view(read)),
{
    match read {
        Some(contents) => LoadStep::Install { index, entries: parse_env_contents(contents) },
        None => if index + 1 < n {
            LoadStep::Read(index + 1)
        } else {
            LoadStep::NotFound
        },
    }
}

proof fn lemma_drive_from(
    reads: Seq<Option<Seq<char>>>,
    i: nat,
    k: nat,
    fuel: nat,
)
    requires
        i <= k < reads.len(),
        fuel > k - i,
        forall|j: int| i <= j < k ==> reads[j] is None,
        reads[k as int] is Some,
    ensures
        drive(reads.len(), reads, StepModel::Read(i), fuel) == (
            Seq::new((k - i + 1) as nat, |j: int| (i + j) as nat),
            StepModel::Install(k, contents_entries(reads[k as int]->0)),
        ),
    decreases k - i,
{
    let n = reads.len();
    if i < k {
        lemma_drive_from(reads, i + 1, k, (fuel - 1) as nat);
        let (rest, last) = drive(n, reads, StepModel::Read(i + 1), (fuel - 1) as nat);
        assert(seq![i] + rest =~= Seq::new((k - i + 1) as nat, |j: int| (i + j) as nat));
    } else {
        let (rest, last) = drive(n, reads, next_model(n, i, reads[i as int]), (fuel - 1) as nat);
        assert(seq![i] + rest =~= Seq::new((k - i + 1) as nat, |j: int| (i + j) as nat));
    }
}

/// Where the first `k` candidates cannot be read and candidate `k` can, the
/// loader reads candidates `0..=k` in order, installs what candidate `k` holds,
/// and reads no later candidate.
pub proof fn lemma_first_readable_candidate_wins(reads: Seq<Option<Seq<char>>>, k: nat)
    requires
        k < reads.len(),
        forall|j: int| 0 <= j < k ==> reads[j] is None,
        reads[k as int] is Some,
    ensures
        loader_run(reads) == (
            Seq::new(k + 1, |j: int| j as nat),
            StepModel::Install(k, contents_entries(reads[k as int]->0)),
        ),
{
    lemma_drive_from(reads, 0, k, reads.len());
    assert(Seq::new(k + 1, |j: int| (0 + j) as nat) =~= Seq::new(k + 1, |j: int| j as nat));
}

proof fn lemma_drive_none(reads: Seq<Option<Seq<char>>>, i: nat, fuel: nat)
    requires
        i < reads.len(),
        fuel >= reads.len() - i,
        forall|j: int| 0 <= j < reads.len() ==> reads[j] is None,
    ensures
        drive(reads.len(), reads, StepModel::Read(i), fuel) == (
            Seq::new((reads.len() - i) as nat, |j: int| (i + j) as nat),
            StepModel::NotFound,
        ),
    decreases reads.len() - i,
{
    let n = reads.len();
    if i + 1 < n {
        lemma_drive_none(reads, i + 1, (fuel - 1) as nat);
    }
    let (rest, last) = drive(n, reads, next_model(n, i, reads[i as int]), (fuel - 1) as nat);
    assert(seq![i] + rest =~= Seq::new((n - i) as nat, |j: int| (i + j) as nat));
}

/// Where no candidate can be read, the loader tries each once, in order, and
/// leaves the environment as it was.
pub proof fn lemma_no_readable_candidate(
    reads: Seq<Option<Seq<char>>>,
    m: Map<Seq<char>, Seq<char>>,
)
    requires
        forall|j: int| 0 <= j < reads.len() ==> reads[j] is None,
    ensures
        loader_run(reads).0 == Seq::new(reads.len(), |j: int| j as nat),
        loader_run(reads).1 == StepModel::NotFound,
        settle(m, loader_run(reads).1) == m,
{
    if reads.len() > 0 {
        lemma_drive_none(reads, 0, reads.len());
        assert(Seq::new(reads.len(), |j: int| (0 + j) as nat) =~= Seq::new(
            reads.len(),
            |j: int| j as nat,
        ));
    } else {
        assert(Seq::<nat>::empty() =~= Seq::new(reads.len(), |j: int| j as nat));
    }
}

/// Loading twice from unchanged candidates leaves the environment as loading
/// once does.
pub proof fn lemma_loading_twice(reads: Seq<Option<Seq<char>>>, m: Map<Seq<char>, Seq<char>>)
    ensures
        settle(settle(m, loader_run(reads).1), loader_run(reads).1) == settle(
            m,
            loader_run(reads).1,
        ),
{
    if let StepModel::Install(_, es) = loader_run(reads).1 {
        lemma_apply_entries_twice(m, es);
    }
}

} // verus!

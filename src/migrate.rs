use vstd::prelude::*;

verus! {

/// A step of the schema's history; each brings the store to one version.
#[derive(Clone, Copy, Debug, PartialEq, Eq, Structural)]
pub enum Migration {
    /// Creates the tasks, links and metadata tables.
    Bootstrap,
    /// Adds the deletion date to tasks.
    AddDeleted,
}

impl Migration {
    pub open spec fn version(self) -> int {
        match self {
            Migration::Bootstrap => 1,
            Migration::AddDeleted => 2,
        }
    }

    /// The schema version a store is at once this step has run.
    pub fn target_version(&self) -> (r: u64)
        ensures
            r == self.version(),
    {
        match self {
            Migration::Bootstrap => 1,
            Migration::AddDeleted => 2,
        }
    }
}

/// Every step, by ascending target version.
pub open spec fn schema_steps() -> Seq<Migration> {
    seq![Migration::Bootstrap, Migration::AddDeleted]
}

/// The version a store reports; absent or unreadable counts as 0.
pub open spec fn stored_version(current: Option<u64>) -> int {
    match current {
        Some(v) => v as int,
        None => 0,
    }
}

/// The steps still to run on a store at `current`, in the order to run them.
pub open spec fn pending_of(current: Option<u64>) -> Seq<Migration> {
    schema_steps().filter(|m: Migration| m.version() > stored_version(current))
}

/// The steps to run, in order, to bring a store at version `current` to the
/// latest schema. Steps at or below the current version are skipped.
pub fn pending_migrations(current: Option<u64>) -> (r: Vec<Migration>)
    ensures
        r@ == pending_of(current),
{
    let steps = vec![Migration::Bootstrap, Migration::AddDeleted];
    let version: u64 = match current {
        Some(v) => v,
        None => 0,
    };
    let ghost pred = |m: Migration| m.version() > stored_version(current);
    let mut r: Vec<Migration> = Vec::new();
    let mut i: usize = 0;
    while i < steps.len()
        invariant
            steps@ == schema_steps(),
            version == stored_version(current),
            pred == (|m: Migration| m.version() > stored_version(current)),
            0 <= i <= steps@.len(),
            r@ == steps@.subrange(0, i as int).filter(pred),
        decreases steps@.len() - i,
    {
        proof {
            reveal(Seq::filter);
            assert(steps@.subrange(0, i + 1).drop_last() =~= steps@.subrange(0, i as int));
        }
        let step = steps[i];
        if step.target_version() > version {
            r.push(step);
        }
        i = i + 1;
    }
    proof {
        assert(steps@.subrange(0, steps@.len() as int) =~= steps@);
    }
    r
}

} // verus!

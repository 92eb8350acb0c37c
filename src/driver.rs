use vstd::prelude::*;

verus! {

/// What the runner is to do next against the upstream server.
#[derive(Clone, Copy, Debug, PartialEq, Eq, Structural)]
pub enum Command {
    /// Point the shared connection at this tenant's database.
    Select(usize),
    /// Run the bias query for this tenant and load its rows.
    ExtractBiases(usize),
    /// Run the detection-rate query for this tenant and load its rows.
    ExtractRates(usize),
    /// Every tenant has been attempted.
    Finish,
}

#[derive(Clone, Copy, Debug, PartialEq, Eq, Structural)]
pub enum Stage {
    Select,
    Biases,
    Rates,
}

/// Commands for one tenant whose selection succeeded (or not).
pub open spec fn tenant_commands(i: int, selected: bool) -> Seq<Command> {
    if selected {
        seq![Command::Select(i as usize), Command::ExtractBiases(i as usize), Command::ExtractRates(i as usize)]
    } else {
        seq![Command::Select(i as usize)]
    }
}

/// Every command of a run over tenants `0..outcomes.len()`, where `outcomes[i]` says
/// whether selecting tenant `i` succeeded.
pub open spec fn run_commands(outcomes: Seq<bool>) -> Seq<Command>
    decreases outcomes.len(),
{
    if outcomes.len() == 0 {
        Seq::empty()
    } else {
        run_commands(outcomes.drop_last()) + tenant_commands(outcomes.len() - 1, outcomes.last())
    }
}

/// The tenant a command concerns, if any.
pub open spec fn tenant_of(c: Command) -> int {
    match c {
        Command::Select(i) => i as int,
        Command::ExtractBiases(i) => i as int,
        Command::ExtractRates(i) => i as int,
        Command::Finish => -1,
    }
}

pub open spec fn is_extraction(c: Command) -> bool {
    c is ExtractBiases || c is ExtractRates
}

/// Sequences a run: one selection per tenant, in order, then both extractions for it
/// when the selection held; a failure moves on and never ends the run early.
pub struct Driver {
    pub tenant_count: usize,
    pub current: usize,
    pub stage: Stage,
    /// Selection outcomes of the tenants already finished.
    pub outcomes: Ghost<Seq<bool>>,
    /// Commands carried out so far.
    pub issued: Ghost<Seq<Command>>,
}

impl Driver {
    pub open spec fn partial(&self) -> Seq<Command> {
        match self.stage {
            Stage::Select => Seq::empty(),
            Stage::Biases => seq![Command::Select(self.current)],
            Stage::Rates => seq![Command::Select(self.current), Command::ExtractBiases(self.current)],
        }
    }

    pub open spec fn wf(&self) -> bool {
        &&& self.current <= self.tenant_count
        &&& self.current == self.tenant_count ==> self.stage == Stage::Select
        &&& self.outcomes@.len() == self.current
        &&& self.issued@ == run_commands(self.outcomes@) + self.partial()
    }

    pub open spec fn next_spec(&self) -> Command {
        if self.current >= self.tenant_count {
            Command::Finish
        } else {
            match self.stage {
                Stage::Select => Command::Select(self.current),
                Stage::Biases => Command::ExtractBiases(self.current),
                Stage::Rates => Command::ExtractRates(self.current),
            }
        }
    }

    /// Steps left before the run finishes.
    pub open spec fn remaining(&self) -> int {
        3 * (self.tenant_count - self.current) - match self.stage {
            Stage::Select => 0int,
            Stage::Biases => 1int,
            Stage::Rates => 2int,
        }
    }

    /// A run over `tenant_count` discovered tenants.
    pub fn new(tenant_count: usize) -> (r: Driver)
        ensures
            r.wf(),
            r.tenant_count == tenant_count,
            r.current == 0,
            r.stage == Stage::Select,
            r.issued@ == Seq::<Command>::empty(),
    {
        Driver {
            tenant_count,
            current: 0,
            stage: Stage::Select,
            outcomes: Ghost(Seq::empty()),
            issued: Ghost(Seq::empty()),
        }
    }

    /// The command to carry out now.
    pub fn next(&self) -> (r: Command)
        requires
            self.wf(),
        ensures
            r == self.next_spec(),
            r is Finish ==> self.outcomes@.len() == self.tenant_count && self.issued@ == run_commands(
                self.outcomes@,
            ),
    {
        if self.current >= self.tenant_count {
            assert(self.issued@ =~= run_commands(self.outcomes@));
            Command::Finish
        } else {
            match self.stage {
                Stage::Select => Command::Select(self.current),
                Stage::Biases => Command::ExtractBiases(self.current),
                Stage::Rates => Command::ExtractRates(self.current),
            }
        }
    }

    /// Records how the command `next()` named went. A failed selection skips both
    /// extractions of that tenant; a failed extraction skips nothing else.
    pub fn record(&mut self, succeeded: bool)
        requires
            old(self).wf(),
        ensures
            final(self).wf(),
            final(self).tenant_count == old(self).tenant_count,
            old(self).next_spec() is Finish ==> *final(self) == *old(self),
            !(old(self).next_spec() is Finish) ==> {
                &&& final(self).issued@ == old(self).issued@.push(old(self).next_spec())
                &&& 0 <= final(self).remaining() < old(self).remaining()
            },
            old(self).next_spec() is Select && !succeeded ==> final(self).current == old(self).current + 1
                && final(self).stage == Stage::Select,
            old(self).next_spec() is Select && succeeded ==> final(self).current == old(self).current
                && final(self).stage == Stage::Biases,
            old(self).next_spec() is ExtractBiases ==> final(self).current == old(self).current
                && final(self).stage == Stage::Rates,
            old(self).next_spec() is ExtractRates ==> final(self).current == old(self).current + 1
                && final(self).stage == Stage::Select,
    {
        if self.current >= self.tenant_count {
            return;
        }
        let ghost c = self.next_spec();
        let ghost oks = self.outcomes@;
        let ghost i = self.current as int;
        match self.stage {
            Stage::Select => {
                if succeeded {
                    self.stage = Stage::Biases;
                } else {
                    proof {
                        assert(oks.push(false).drop_last() =~= oks);
                        self.outcomes@ = oks.push(false);
                    }
                    self.current = self.current + 1;
                }
            },
            Stage::Biases => {
                self.stage = Stage::Rates;
            },
            Stage::Rates => {
                proof {
                    assert(oks.push(true).drop_last() =~= oks);
                    self.outcomes@ = oks.push(true);
                }
                self.current = self.current + 1;
                self.stage = Stage::Select;
            },
        }
        proof {
            self.issued@ = self.issued@.push(c);
            assert(self.issued@ =~= run_commands(self.outcomes@) + self.partial());
        }
    }
}

/// Every command of a run concerns one of its tenants.
proof fn lemma_tenants_in_range(outcomes: Seq<bool>, q: int)
    requires
        0 <= q < run_commands(outcomes).len(),
        outcomes.len() <= usize::MAX,
    ensures
        0 <= tenant_of(run_commands(outcomes)[q]) < outcomes.len(),
    decreases outcomes.len(),
{
    let prev = outcomes.drop_last();
    let p = run_commands(prev);
    if q < p.len() {
        lemma_tenants_in_range(prev, q);
    }
}

/// Where the commands of tenant `i` begin in a run.
pub open spec fn block_start(outcomes: Seq<bool>, i: int) -> int {
    run_commands(outcomes.take(i)).len() as int
}

/// The commands of tenant `i` stand together, at `block_start`, and no other command concerns it.
proof fn lemma_tenant_block(outcomes: Seq<bool>, i: int)
    requires
        0 <= i < outcomes.len(),
        outcomes.len() <= usize::MAX,
    ensures
        ({
            let r = run_commands(outcomes);
            let p = block_start(outcomes, i);
            let b = tenant_commands(i, outcomes[i]);
            &&& p + b.len() <= r.len()
            &&& r.subrange(p, p + b.len()) == b
            &&& forall|q: int| 0 <= q < r.len() && tenant_of(#[trigger] r[q]) == i ==> p <= q < p + b.len()
        }),
    decreases outcomes.len(),
{
    let n = outcomes.len() as int;
    let prev = outcomes.drop_last();
    let r = run_commands(outcomes);
    let b = tenant_commands(i, outcomes[i]);
    let p = block_start(outcomes, i);
    let last = tenant_commands(n - 1, outcomes.last());
    assert(r == run_commands(prev) + last);
    if i == n - 1 {
        assert(outcomes.take(i) =~= prev);
        assert(r.subrange(p, p + b.len()) =~= b);
        assert forall|q: int| 0 <= q < r.len() && tenant_of(#[trigger] r[q]) == i implies p <= q < p + b.len() by {
            if q < p {
                assert(r[q] == run_commands(prev)[q]);
                lemma_tenants_in_range(prev, q);
            }
        }
    } else {
        lemma_tenant_block(prev, i);
        assert(prev.take(i) =~= outcomes.take(i));
        assert(prev[i] == outcomes[i]);
        let rp = run_commands(prev);
        assert(r.subrange(p, p + b.len()) =~= rp.subrange(p, p + b.len()));
        assert forall|q: int| 0 <= q < r.len() && tenant_of(#[trigger] r[q]) == i implies p <= q < p + b.len() by {
            if q < rp.len() {
                assert(r[q] == rp[q]);
            } else {
                let k = q - rp.len();
                assert(r[q] == last[k]);
                assert(0 <= n - 1 < usize::MAX + 1);
            }
        }
    }
}

/// Each tenant of a run is selected exactly once, and every extraction for it comes
/// after that selection.
pub proof fn lemma_one_selection_before_extraction(outcomes: Seq<bool>, i: int)
    requires
        0 <= i < outcomes.len(),
        outcomes.len() <= usize::MAX,
    ensures
        ({
            let r = run_commands(outcomes);
            let p = block_start(outcomes, i);
            &&& 0 <= p < r.len()
            &&& r[p] == Command::Select(i as usize)
            &&& forall|q: int| 0 <= q < r.len() && r[q] == Command::Select(i as usize) ==> q == p
            &&& forall|q: int| 0 <= q < r.len() && is_extraction(r[q]) && tenant_of(r[q]) == i ==> p < q
        }),
{
    lemma_tenant_block(outcomes, i);
    let r = run_commands(outcomes);
    let p = block_start(outcomes, i);
    let b = tenant_commands(i, outcomes[i]);
    assert(r[p] == r.subrange(p, p + b.len())[0]);
    assert forall|q: int| 0 <= q < r.len() && r[q] == Command::Select(i as usize) implies q == p by {
        assert(tenant_of(r[q]) == i);
        assert(r[q] == r.subrange(p, p + b.len())[q - p]);
    }
    assert forall|q: int| 0 <= q < r.len() && is_extraction(r[q]) && tenant_of(r[q]) == i implies p < q by {
        if q == p {
            assert(r[q] == b[0]);
        }
    }
}

/// A tenant whose selection held has both its extractions carried out, whatever
/// became of the other tenants.
pub proof fn lemma_failures_stay_isolated(outcomes: Seq<bool>, i: int)
    requires
        0 <= i < outcomes.len(),
        outcomes.len() <= usize::MAX,
        outcomes[i],
    ensures
        run_commands(outcomes).contains(Command::ExtractBiases(i as usize)),
        run_commands(outcomes).contains(Command::ExtractRates(i as usize)),
{
    lemma_tenant_block(outcomes, i);
    let r = run_commands(outcomes);
    let p = block_start(outcomes, i);
    let b = tenant_commands(i, true);
    assert(r[p + 1] == r.subrange(p, p + 3)[1]);
    assert(r[p + 2] == r.subrange(p, p + 3)[2]);
}

} // verus!

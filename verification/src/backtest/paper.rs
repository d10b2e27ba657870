//! A portfolio on paper: it keeps the side of each position and a list of all that was asked.

use crate::backtest::multi;
use crate::backtest::multi::Portfolio;
use crate::backtest::multi::PortfolioCall;
use crate::backtest::signal::Holding;
use crate::backtest::signal::Signal;
use crate::instrument::InstrumentId;
use crate::name_index::InstrumentMap;
use vstd::prelude::*;

verus! {

/// A thing that was asked of a portfolio.
#[derive(Debug)]
pub enum PaperEntry {
    Register(InstrumentId),
    Mark { id: InstrumentId, price: i64 },
    Close { id: InstrumentId, price: i64, ts: u64 },
    Open { id: InstrumentId, price: i64, size: i64, side: Signal },
    Publish { name: String, value: i8, ts: u64 },
    Peak { id: InstrumentId, price: i64 },
    Record,
}

impl View for PaperEntry {
    type V = PortfolioCall;

    open spec fn view(&self) -> PortfolioCall {
        match self {
            PaperEntry::Register(id) => PortfolioCall::Register(id@),
            PaperEntry::Mark { id, price } => PortfolioCall::Mark {
                id: id@,
                price: *price as int,
            },
            PaperEntry::Close { id, price, ts } => PortfolioCall::Close {
                id: id@,
                price: *price as int,
                ts: *ts as int,
            },
            PaperEntry::Open { id, price, size, side } => PortfolioCall::Open {
                id: id@,
                price: *price as int,
                size: *size as int,
                side: *side,
            },
            PaperEntry::Publish { name, value, ts } => PortfolioCall::Publish {
                name: name@,
                value: *value as int,
                ts: *ts as int,
            },
            PaperEntry::Peak { id, price } => PortfolioCall::Peak {
                id: id@,
                price: *price as int,
            },
            PaperEntry::Record => PortfolioCall::Record,
        }
    }
}

/// A portfolio on paper.
#[derive(Debug)]
pub struct PaperPortfolio {
    sides: InstrumentMap<Holding>,
    entries: Vec<PaperEntry>,
}

impl PaperPortfolio {
    /// The sides are those behind all calls.
    #[verifier::type_invariant]
    spec fn wf(self) -> bool {
        self.sides.wf() && self.sides@ == multi::sides_of(self.listed())
    }

    closed spec fn listed(self) -> Seq<PortfolioCall> {
        Seq::new(self.entries@.len(), |i: int| self.entries@[i]@)
    }

    /// An empty portfolio.
    pub fn new() -> (r: Self)
        ensures
            r.calls() == Seq::<PortfolioCall>::empty(),
    {
        let sides = InstrumentMap::new();
        let entries: Vec<PaperEntry> = Vec::new();
        let ghost none = Seq::new(entries@.len(), |i: int| entries@[i]@);
        assert(none =~= Seq::<PortfolioCall>::empty());
        let r = PaperPortfolio { sides, entries };
        assert(r.calls() =~= Seq::<PortfolioCall>::empty());
        r
    }

    /// All that was asked.
    pub fn entries(&self) -> (r: &Vec<PaperEntry>)
        ensures
            r@.len() == self.calls().len(),
            forall|i: int| 0 <= i < r@.len() ==> (#[trigger] r@[i])@ == self.calls()[i],
    {
        &self.entries
    }

    /// The side of an instrument's position; none where it is not held.
    pub fn side(&self, id: &InstrumentId) -> (r: Option<Holding>)
        ensures
            match r {
                Some(h) => multi::sides_of(self.calls()).dom().contains(id@) && h == multi::sides_of(
                    self.calls(),
                )[id@],
                None => !multi::sides_of(self.calls()).dom().contains(id@),
            },
    {
        proof {
            use_type_invariant(self);
        }
        match self.sides.get(id) {
            Some(h) => Some(*h),
            None => None,
        }
    }

    fn note(&mut self, entry: PaperEntry)
        ensures
            final(self).calls() == old(self).calls().push(entry@),
    {
        proof {
            use_type_invariant(&*self);
        }
        let ghost before = self.listed();
        let mut taken = PaperPortfolio::new();
        std::mem::swap(self, &mut taken);
        let PaperPortfolio { mut sides, mut entries } = taken;
        match &entry {
            PaperEntry::Register(id) => {
                sides.insert(id, Holding::Flat);
            },
            PaperEntry::Close { id, price: _, ts: _ } => {
                sides.insert(id, Holding::Flat);
            },
            PaperEntry::Open { id, price: _, size, side } => {
                let holding = match side {
                    Signal::Buy => if *size > 0 {
                        Holding::Long
                    } else if *size < 0 {
                        Holding::Short
                    } else {
                        Holding::Flat
                    },
                    Signal::Sell => if *size > 0 {
                        Holding::Short
                    } else if *size < 0 {
                        Holding::Long
                    } else {
                        Holding::Flat
                    },
                    Signal::Close => Holding::Flat,
                };
                sides.insert(id, holding);
            },
            _ => {},
        }
        let ghost call = entry@;
        entries.push(entry);
        proof {
            let all = Seq::new(entries@.len(), |i: int| entries@[i]@);
            assert(all =~= before.push(call));
            assert(before.push(call).drop_last() =~= before);
            assert(sides@ =~= multi::side_behind(multi::sides_of(before), call));
        }
        *self = PaperPortfolio { sides, entries };
    }
}

impl Portfolio for PaperPortfolio {
    closed spec fn calls(&self) -> Seq<PortfolioCall> {
        self.listed()
    }

    fn knows(&self, id: &InstrumentId) -> (r: bool) {
        self.side(id).is_some()
    }

    fn holding(&self, id: &InstrumentId) -> (r: Holding) {
        match self.side(id) {
            Some(h) => h,
            None => Holding::Flat,
        }
    }

    fn register(&mut self, id: &InstrumentId) {
        self.note(PaperEntry::Register(id.clone()));
    }

    fn mark(&mut self, id: &InstrumentId, price: i64) {
        self.note(PaperEntry::Mark { id: id.clone(), price });
    }

    fn close(&mut self, id: &InstrumentId, price: i64, ts: u64) {
        self.note(PaperEntry::Close { id: id.clone(), price, ts });
    }

    fn open(&mut self, id: &InstrumentId, price: i64, size: i64, side: Signal) {
        self.note(PaperEntry::Open { id: id.clone(), price, size, side });
    }

    fn publish(&mut self, name: &str, value: i8, ts: u64) {
        self.note(PaperEntry::Publish { name: name.to_owned(), value, ts });
    }

    fn update_peak(&mut self, id: &InstrumentId, price: i64) {
        self.note(PaperEntry::Peak { id: id.clone(), price });
    }

    fn record_equity(&mut self) {
        self.note(PaperEntry::Record);
    }
}

} // verus!

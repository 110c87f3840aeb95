//! What a search tells about the depths that it completes.

use super::{SearchResult, SearchResultView};
use vstd::prelude::*;

verus! {

/// Whether `f` was called with a result that says this.
pub open spec fn received<F: FnMut(&SearchResult)>(f: F, result: SearchResultView) -> bool {
    exists|r: &SearchResult| r@ == result && #[trigger] call_ensures(f, (r,), ())
}

/// Someone who is told of search results, with a record of what they have been
/// told so far. The record is there for proofs only; nothing but `report`
/// calls the function inside.
pub struct Reports<F> {
    f: F,
    log: Ghost<Seq<SearchResultView>>,
}

impl<F: FnMut(&SearchResult)> Reports<F> {
    /// The function that is called.
    pub closed spec fn receiver(&self) -> F {
        self.f
    }

    /// The results that were reported so far, in order.
    pub closed spec fn log(&self) -> Seq<SearchResultView> {
        self.log@
    }

    /// Whether any result may be reported, and what is on record was.
    pub open spec fn wf(&self) -> bool {
        &&& forall|r: &SearchResult| call_requires(self.receiver(), (r,))
        &&& forall|k: int|
            0 <= k < self.log().len() ==> received(self.receiver(), #[trigger] self.log()[k])
    }

    /// Reports to `f`, which has heard nothing yet.
    pub fn new(f: F) -> (reports: Reports<F>)
        requires
            forall|r: &SearchResult| call_requires(f, (r,)),
        ensures
            reports.wf(),
            reports.receiver() == f,
            reports.log() == Seq::<SearchResultView>::empty(),
    {
        Reports { f, log: Ghost(Seq::empty()) }
    }

    /// Reports one more result.
    pub fn report(&mut self, result: &SearchResult)
        requires
            old(self).wf(),
        ensures
            final(self).wf(),
            final(self).receiver() == old(self).receiver(),
            final(self).log() == old(self).log().push(result@),
    {
        assert(call_requires(self.receiver(), (result,)));
        (self.f)(result);
        proof {
            assert(received(self.receiver(), result@));
            self.log@ = self.log@.push(result@);
            assert forall|k: int| 0 <= k < self.log().len() implies received(
                self.receiver(),
                #[trigger] self.log()[k],
            ) by {
                if k < old(self).log().len() {
                    assert(self.log()[k] == old(self).log()[k]);
                }
            }
        }
    }
}

} // verus!

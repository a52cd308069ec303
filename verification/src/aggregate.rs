//! The running count and sum of the observed numbers, and what is left of
//! them at the end.

use vstd::prelude::*;
use crate::error::{EmptyAggregateError, ExtractError};
use crate::extract::{first_integer, numeric_payload};
use crate::record::TypedValue;

verus! {

/// The mathematical content of an [`Aggregator`] and of a [`Summary`].
pub struct AggregateModel {
    pub count: nat,
    pub sum: int,
}

impl AggregateModel {
    /// Nothing counted and nothing added.
    pub open spec fn zero() -> AggregateModel {
        AggregateModel { count: 0, sum: 0 }
    }

    /// The counts added and the sums added.
    pub open spec fn plus(self, other: AggregateModel) -> AggregateModel {
        AggregateModel { count: self.count + other.count, sum: self.sum + other.sum }
    }

    /// One number more.
    pub open spec fn with_number(self, number: int) -> AggregateModel {
        AggregateModel { count: self.count + 1, sum: self.sum + number }
    }
}

/// A count and a sum that take one number at a time.
pub struct Aggregator {
    count: u64,
    sum: i128,
}

impl View for Aggregator {
    type V = AggregateModel;

    closed spec fn view(&self) -> AggregateModel {
        AggregateModel { count: self.count as nat, sum: self.sum as int }
    }
}

impl Aggregator {
    #[verifier::type_invariant]
    spec fn bounded(self) -> bool {
        -0x8000_0000 * self.count <= self.sum <= 0x7FFF_FFFF * self.count
    }

    /// An aggregator that has observed nothing.
    pub fn new() -> (aggregator: Self)
        ensures
            aggregator@ == AggregateModel::zero(),
    {
        Aggregator { count: 0, sum: 0 }
    }

    /// How many numbers have been observed.
    pub fn count(&self) -> (count: u64)
        ensures
            count == self@.count,
    {
        self.count
    }

    /// The sum of the numbers observed.
    pub fn sum(&self) -> (sum: i128)
        ensures
            sum == self@.sum,
    {
        self.sum
    }

    /// Takes the number that one record gives: a number is counted and
    /// added, nothing is passed over.
    pub fn observe_number(&mut self, number: Option<i32>)
        requires
            old(self)@.count < u64::MAX,
        ensures
            number is None ==> final(self)@ == old(self)@,
            number is Some ==> final(self)@ == old(self)@.with_number(number->0 as int),
    {
        proof {
            use_type_invariant(&*self);
        }
        match number {
            None => {},
            Some(number) => {
                let count = self.count + 1;
                let sum = self.sum + number as i128;
                *self = Aggregator { count, sum };
            },
        }
    }

    /// Takes what the extractor found in one record.  No value is passed
    /// over, and so is an integer value without an element.  The first
    /// element of an integer value is counted and added.  Any other value
    /// is a type mismatch, and changes nothing.
    pub fn observe(&mut self, value: Option<&TypedValue>) -> (r: Result<(), ExtractError>)
        requires
            old(self)@.count < u64::MAX,
        ensures
            match value {
                None => r is Ok && final(self)@ == old(self)@,
                Some(v) => match numeric_payload(v@) {
                    Err(e) => r == Err::<(), ExtractError>(e) && final(self)@ == old(self)@,
                    Ok(None) => r is Ok && final(self)@ == old(self)@,
                    Ok(Some(number)) => r is Ok && final(self)@ == old(self)@.with_number(
                        number as int,
                    ),
                },
            },
    {
        match value {
            None => Ok(()),
            Some(v) => match first_integer(v) {
                Err(e) => Err(e),
                Ok(number) => {
                    self.observe_number(number);
                    Ok(())
                },
            },
        }
    }

    /// Ends the aggregation.  Where nothing was observed there is no mean,
    /// and that is an error.
    pub fn finalize(self) -> (r: Result<Summary, EmptyAggregateError>)
        ensures
            self@.count == 0 <==> r is Err,
            r is Ok ==> r->Ok_0@ == self@,
    {
        proof {
            use_type_invariant(&self);
        }
        if self.count == 0 {
            Err(EmptyAggregateError)
        } else {
            Ok(Summary { count: self.count, sum: self.sum })
        }
    }
}

/// The sum of one number or more, and how many they were.  Their mean is
/// the sum divided by the count.
#[derive(Clone, Copy, Debug, PartialEq, Eq)]
pub struct Summary {
    count: u64,
    sum: i128,
}

impl View for Summary {
    type V = AggregateModel;

    closed spec fn view(&self) -> AggregateModel {
        AggregateModel { count: self.count as nat, sum: self.sum as int }
    }
}

impl Summary {
    #[verifier::type_invariant]
    spec fn bounded(self) -> bool {
        &&& self.count > 0
        &&& -0x8000_0000 * self.count <= self.sum <= 0x7FFF_FFFF * self.count
    }

    /// Two summaries of one content are one summary.
    pub proof fn lemma_same_content(self, other: Summary)
        requires
            self@ == other@,
        ensures
            self == other,
    {
    }

    /// How many numbers were observed: one at least.
    pub fn count(&self) -> (count: u64)
        ensures
            count == self@.count,
            count > 0,
    {
        proof {
            use_type_invariant(self);
        }
        self.count
    }

    /// The sum of the numbers observed.
    pub fn sum(&self) -> (sum: i128)
        ensures
            sum == self@.sum,
    {
        self.sum
    }

    /// The mean, rounded down to a whole number.
    pub fn mean_floor(&self) -> (mean: i128)
        ensures
            mean * self@.count <= self@.sum < (mean + 1) * self@.count,
    {
        proof {
            use_type_invariant(self);
        }
        let count = self.count as i128;
        if self.sum >= 0 {
            let mean = self.sum / count;
            assert(mean * count <= self.sum < (mean + 1) * count) by (nonlinear_arith)
                requires
                    mean == (self.sum as int) / (count as int),
                    count > 0,
                    self.sum >= 0,
            ;
            mean
        } else {
            let below = -self.sum;
            let up = (below + (count - 1)) / count;
            assert((up - 1) * count < below <= up * count) by (nonlinear_arith)
                requires
                    up == (below + (count - 1)) / (count as int),
                    count > 0,
                    below > 0,
            ;
            assert((-up) * count <= self.sum < (-up + 1) * count) by (nonlinear_arith)
                requires
                    (up - 1) * count < below <= up * count,
                    below == -self.sum,
            ;
            -up
        }
    }
}

} // verus!

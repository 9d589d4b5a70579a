use vstd::prelude::*;
use crate::limits::check_limbs;
use crate::limits::GenerationError;
use crate::limits::limb_verdict;
use crate::limits::MAX_LIMBS;
use crate::limits::MIN_LIMBS;
use crate::limits::supported;
use crate::procedure::Procedure;

verus! {

/// The generated procedures for the limb counts `2..=max_limbs`, the
/// multiplication and the squaring for each.
pub struct DispatchTable {
    pub max_limbs: usize,
    pub multiply: Vec<Procedure>,
    pub square: Vec<Procedure>,
}

impl DispatchTable {
    /// Whether the table holds exactly one multiplication and one squaring
    /// for each limb count in `2..=max_limbs`, each the generated procedure
    /// for its limb count, in the order of the limb counts.
    pub open spec fn wf(&self) -> bool {
        &&& supported(self.max_limbs as nat)
        &&& self.multiply.len() == self.max_limbs - 1
        &&& self.square.len() == self.max_limbs - 1
        &&& forall|i: int|
            0 <= i < self.multiply.len() ==> {
                &&& (#[trigger] self.multiply[i]).wf()
                &&& self.multiply[i].limbs == i + 2
                &&& !self.multiply[i].squaring
            }
        &&& forall|i: int|
            0 <= i < self.square.len() ==> {
                &&& (#[trigger] self.square[i]).wf()
                &&& self.square[i].limbs == i + 2
                &&& self.square[i].squaring
            }
    }

    /// What looking `limbs` up in a table for `2..=max_limbs` gives: the
    /// place of the procedure, or the error with the offending limb count
    /// and the largest one in the table.
    pub open spec fn place(max_limbs: usize, limbs: usize) -> Result<int, GenerationError> {
        if MIN_LIMBS <= limbs <= max_limbs {
            Ok(limbs - 2)
        } else {
            Err(GenerationError::UnsupportedLimbs { got: limbs, max: max_limbs })
        }
    }

    /// The procedure for `limbs` limbs: the squaring if `squaring`, else
    /// the multiplication. A limb count that the table does not hold is
    /// refused, with the count and the largest in the table in the error.
    pub fn lookup(&self, limbs: usize, squaring: bool) -> (r: Result<&Procedure, GenerationError>)
        requires
            self.wf(),
        ensures
            match (r, Self::place(self.max_limbs, limbs)) {
                (Ok(p), Ok(i)) => {
                    &&& *p == (if squaring {
                        self.square[i]
                    } else {
                        self.multiply[i]
                    })
                    &&& p.wf()
                    &&& p.limbs == limbs
                    &&& p.squaring == squaring
                },
                (Err(e), Err(f)) => e == f,
                _ => false,
            },
    {
        if limbs < MIN_LIMBS || limbs > self.max_limbs {
            return Err(GenerationError::UnsupportedLimbs { got: limbs, max: self.max_limbs });
        }
        if squaring {
            Ok(&self.square[limbs - 2])
        } else {
            Ok(&self.multiply[limbs - 2])
        }
    }
}

/// Generates the procedures for every limb count in `2..=max_limbs`. A
/// `max_limbs` outside `2..=18` is rejected, and then there is no table.
pub fn build_dispatch_table(max_limbs: usize) -> (r: Result<DispatchTable, GenerationError>)
    ensures
        r is Ok <==> supported(max_limbs as nat),
        r matches Ok(table) ==> table.wf() && table.max_limbs == max_limbs,
        r matches Err(e) ==> limb_verdict(max_limbs) == Err::<(), GenerationError>(e),
{
    match check_limbs(max_limbs) {
        Err(e) => {
            return Err(e);
        },
        Ok(_) => {},
    }
    let mut multiply: Vec<Procedure> = Vec::new();
    let mut square: Vec<Procedure> = Vec::new();
    let mut limbs: usize = MIN_LIMBS;
    while limbs <= max_limbs
        invariant
            MIN_LIMBS <= limbs <= max_limbs + 1,
            max_limbs <= MAX_LIMBS,
            multiply.len() == limbs - 2,
            square.len() == limbs - 2,
            forall|i: int|
                0 <= i < multiply.len() ==> {
                    &&& (#[trigger] multiply[i]).wf()
                    &&& multiply[i].limbs == i + 2
                    &&& !multiply[i].squaring
                },
            forall|i: int|
                0 <= i < square.len() ==> {
                    &&& (#[trigger] square[i]).wf()
                    &&& square[i].limbs == i + 2
                    &&& square[i].squaring
                },
        decreases max_limbs + 1 - limbs,
    {
        match Procedure::generate(limbs, false) {
            Ok(p) => {
                multiply.push(p);
            },
            Err(_) => {
                assert(false);
            },
        }
        match Procedure::generate(limbs, true) {
            Ok(p) => {
                square.push(p);
            },
            Err(_) => {
                assert(false);
            },
        }
        limbs += 1;
    }
    Ok(DispatchTable { max_limbs, multiply, square })
}

} // verus!

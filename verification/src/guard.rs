//! The checks that every frame passes on its way into the cache.

use crate::config::FrameShape;
use crate::element::TokenElement;
use vstd::prelude::*;

verus! {

/// Why a frame was rejected.
#[derive(Clone, Copy, Debug, PartialEq, Eq, Structural)]
#[allow(inconsistent_fields)]
pub enum IngestError {
    /// The block does not hold as many elements as the geometry asks for.
    LengthMismatch { expected: usize, actual: usize },
    /// The sensor device declared another geometry than this node is
    /// configured for.
    ShapeMismatch { expected: FrameShape, actual: FrameShape },
    /// The element at `index` is an infinity or a NaN; it is the first such.
    NonFiniteElement { index: usize },
}

/// Every element of the block is finite.
pub open spec fn all_finite<T: TokenElement>(tokens: Seq<T>) -> bool {
    forall|i: int| 0 <= i < tokens.len() ==> (#[trigger] tokens[i]).finite()
}

/// `index` is where the first element that is not finite stands.
pub open spec fn first_non_finite<T: TokenElement>(tokens: Seq<T>, index: int) -> bool {
    &&& 0 <= index < tokens.len()
    &&& !tokens[index].finite()
    &&& all_finite(tokens.take(index))
}

/// The block may enter a cache that is configured for `expected`.
pub open spec fn admissible<T: TokenElement>(
    tokens: Seq<T>,
    expected: FrameShape,
    declared: FrameShape,
) -> bool {
    &&& declared == expected
    &&& tokens.len() == expected.elements()
    &&& all_finite(tokens)
}

/// The reason for which the block may not enter. Geometry comes first: a
/// device that is set up for another width sends blocks of another length too,
/// and its blocks are to be told from truncated ones.
pub open spec fn rejected_with<T: TokenElement>(
    tokens: Seq<T>,
    expected: FrameShape,
    declared: FrameShape,
    error: IngestError,
) -> bool {
    if declared != expected {
        error == (IngestError::ShapeMismatch { expected, actual: declared })
    } else if tokens.len() != expected.elements() {
        error == (IngestError::LengthMismatch {
            expected: expected.elements() as usize,
            actual: tokens.len() as usize,
        })
    } else {
        error matches IngestError::NonFiniteElement { index } && first_non_finite(
            tokens,
            index as int,
        )
    }
}

/// The reason for which a block that may not enter is rejected.
pub open spec fn rejection<T: TokenElement>(
    tokens: Seq<T>,
    expected: FrameShape,
    declared: FrameShape,
) -> IngestError {
    choose|error: IngestError| rejected_with(tokens, expected, declared, error)
}

/// Geometry and finiteness checks applied to every frame entering the cache.
pub struct StreamGuard;

impl StreamGuard {
    /// Rejects a token block whose element count does not match the configured
    /// geometry, so a malformed frame cannot be linearized into the context array.
    ///
    /// This is a length check only. It does not inspect frame contents and does
    /// not detect a block that is correctly sized but projected for a different
    /// target width; [`Self::verify`] does both.
    pub fn verify_tensor_bounds(
        incoming_len: usize,
        expected_len: usize,
    ) -> (result: Result<(), &'static str>)
        ensures
            result is Ok <==> incoming_len == expected_len,
            result matches Err(message) ==> message@
                == "StreamGuard Violation: Structural dimensionality mismatch. Visual array rejected."@,
    {
        if incoming_len != expected_len {
            return Err(
                "StreamGuard Violation: Structural dimensionality mismatch. Visual array rejected.",
            );
        }
        Ok(())
    }

    /// Checks a token block against the configured geometry.
    ///
    /// The declared geometry has to be the expected one, the block has to hold
    /// as many elements as that, and every element has to be finite. The
    /// checks are made in this order and the first that fails is reported.
    pub fn verify<T: TokenElement>(
        tokens: &[T],
        expected: FrameShape,
        declared: FrameShape,
    ) -> (result: Result<(), IngestError>)
        requires
            expected.countable(),
        ensures
            result is Ok <==> admissible(tokens@, expected, declared),
            result matches Err(error) ==> rejected_with(tokens@, expected, declared, error),
            result is Ok <==> {
                &&& declared == expected
                &&& tokens@.len() == expected.tokens * expected.dim
                &&& forall|i: int| 0 <= i < tokens@.len() ==> (#[trigger] tokens@[i]).finite()
            },
    {
        if declared != expected {
            return Err(IngestError::ShapeMismatch { expected, actual: declared });
        }
        let expected_len: usize = expected.frame_len();
        if Self::verify_tensor_bounds(tokens.len(), expected_len).is_err() {
            return Err(
                IngestError::LengthMismatch { expected: expected_len, actual: tokens.len() },
            );
        }
        let mut i: usize = 0;
        while i < tokens.len()
            invariant
                i <= tokens@.len(),
                declared == expected,
                tokens@.len() == expected.elements(),
                forall|j: int| 0 <= j < i ==> (#[trigger] tokens@[j]).finite(),
            decreases tokens@.len() - i,
        {
            if !tokens[i].is_finite() {
                return Err(IngestError::NonFiniteElement { index: i });
            }
            i = i + 1;
        }
        Ok(())
    }
}

/// A block gets one answer: where it is rejected, it is rejected for one
/// reason only.
pub proof fn law_one_reason_for_a_rejection<T: TokenElement>(
    tokens: Seq<T>,
    expected: FrameShape,
    declared: FrameShape,
    first: IngestError,
    second: IngestError,
)
    requires
        rejected_with(tokens, expected, declared, first),
        rejected_with(tokens, expected, declared, second),
    ensures
        first == second,
        first == rejection(tokens, expected, declared),
        !admissible(tokens, expected, declared),
{
    lemma_same_rejection(tokens, expected, declared, first, second);
    lemma_same_rejection(
        tokens,
        expected,
        declared,
        first,
        rejection(tokens, expected, declared),
    );
}

/// Two reasons for the rejection of one block are the same.
proof fn lemma_same_rejection<T: TokenElement>(
    tokens: Seq<T>,
    expected: FrameShape,
    declared: FrameShape,
    first: IngestError,
    second: IngestError,
)
    requires
        rejected_with(tokens, expected, declared, first),
        rejected_with(tokens, expected, declared, second),
    ensures
        first == second,
        !admissible(tokens, expected, declared),
{
    if declared == expected && tokens.len() == expected.elements() {
        let i = first->index as int;
        let j = second->index as int;
        if i < j {
            assert(tokens.take(j)[i].finite());
        }
        if j < i {
            assert(tokens.take(i)[j].finite());
        }
    }
}

/// A block that holds an element which is not finite holds a first one.
proof fn lemma_first_non_finite<T: TokenElement>(tokens: Seq<T>) -> (index: int)
    requires
        !all_finite(tokens),
    ensures
        first_non_finite(tokens, index),
    decreases tokens.len(),
{
    let rest = tokens.drop_last();
    if all_finite(rest) {
        let last = tokens.len() - 1;
        assert(tokens.take(last) =~= rest);
        assert forall|i: int| 0 <= i < last implies (#[trigger] tokens[i]).finite() by {
            assert(rest[i].finite());
        }
        last
    } else {
        let index = lemma_first_non_finite(rest);
        assert(tokens.take(index) =~= rest.take(index));
        index
    }
}

/// A block that may not enter is rejected for a reason, as long as its length
/// can be written in a `usize`.
pub proof fn law_every_rejection_has_a_reason<T: TokenElement>(
    tokens: Seq<T>,
    expected: FrameShape,
    declared: FrameShape,
)
    requires
        tokens.len() <= usize::MAX,
        !admissible(tokens, expected, declared),
    ensures
        rejected_with(tokens, expected, declared, rejection(tokens, expected, declared)),
{
    let error = if declared != expected {
        IngestError::ShapeMismatch { expected, actual: declared }
    } else if tokens.len() != expected.elements() {
        IngestError::LengthMismatch {
            expected: expected.elements() as usize,
            actual: tokens.len() as usize,
        }
    } else {
        IngestError::NonFiniteElement { index: lemma_first_non_finite(tokens) as usize }
    };
    assert(rejected_with(tokens, expected, declared, error));
}

} // verus!

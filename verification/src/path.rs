//! Merkle paths: the text a caller hands in, and the levels it denotes.
//!
//! A path is written as two texts.  The first holds one sibling per level,
//! each spelled with a fixed count of base-16 digits; the second holds one
//! character per level, `1` where the running hash is the right child.
//! Levels run from the leaf upwards.

use vstd::prelude::*;
use vstd::string::StrSliceExecFns;
use crate::encoding::hex_value;
use crate::error::PipelineError;
use crate::scalar::{decode_scalar, Scalar};

verus! {

/// Number of base-16 digits that spell the sibling of one level.
pub const LEVEL_WIDTH: usize = 32;

/// One level of a Merkle path.
pub struct PathElement {
    /// `true` where the running hash is the right child, so that the sibling
    /// goes on the left.
    pub side: bool,
    /// The other child of the parent at this level.
    pub sibling: Scalar,
}

impl View for PathElement {
    type V = (bool, nat);

    open spec fn view(&self) -> (bool, nat) {
        (self.side, self.sibling@)
    }
}

/// The levels of a path as plain values, leaf level first.
pub open spec fn path_view(path: Seq<PathElement>) -> Seq<(bool, nat)> {
    path.map_values(|e: PathElement| e@)
}

/// The digits that spell the sibling of level `i`.
pub open spec fn level_text(path: Seq<char>, i: int) -> Seq<char> {
    path.subrange(LEVEL_WIDTH * i, LEVEL_WIDTH * i + LEVEL_WIDTH)
}

/// The two texts fit together: whole levels, one side character per level,
/// and every sibling a scalar in range.
pub open spec fn is_path_text(path: Seq<char>, sides: Seq<char>) -> bool {
    &&& path.len() % (LEVEL_WIDTH as nat) == 0
    &&& sides.len() == path.len() / (LEVEL_WIDTH as nat)
    &&& forall|i: int|
        0 <= i < path.len() / (LEVEL_WIDTH as nat) ==> (#[trigger] decode_scalar(
            level_text(path, i),
        )) is Ok
}

/// What reading a path gives: its levels, or `MalformedPath`.
pub open spec fn decode_path_text(path: Seq<char>, sides: Seq<char>) -> Result<
    Seq<(bool, nat)>,
    PipelineError,
> {
    if is_path_text(path, sides) {
        Ok(
            Seq::new(
                path.len() / (LEVEL_WIDTH as nat),
                |i: int| (sides[i] == '1', hex_value(level_text(path, i))),
            ),
        )
    } else {
        Err(PipelineError::MalformedPath)
    }
}

/// Reads a path from its two texts.
pub fn decode_path(path_hex: &str, sides: &str) -> (r: Result<Vec<PathElement>, PipelineError>)
    ensures
        match r {
            Ok(levels) => {
                &&& decode_path_text(path_hex@, sides@) == Ok::<Seq<(bool, nat)>, PipelineError>(
                    path_view(levels@),
                )
                &&& levels@.len() == path_hex@.len() / (LEVEL_WIDTH as nat)
            },
            Err(e) => decode_path_text(path_hex@, sides@) == Err::<
                Seq<(bool, nat)>,
                PipelineError,
            >(e),
        },
{
    let n: usize = path_hex.unicode_len();
    if n % LEVEL_WIDTH != 0 {
        return Err(PipelineError::MalformedPath);
    }
    let depth: usize = n / LEVEL_WIDTH;
    if sides.unicode_len() != depth {
        return Err(PipelineError::MalformedPath);
    }
    let mut levels: Vec<PathElement> = Vec::new();
    let mut i: usize = 0;
    while i < depth
        invariant
            i <= depth,
            n == path_hex@.len(),
            n == depth * LEVEL_WIDTH,
            sides@.len() == depth,
            levels@.len() == i,
            forall|k: int| 0 <= k < i ==> (#[trigger] decode_scalar(level_text(path_hex@, k))) is Ok,
            forall|k: int|
                0 <= k < i ==> (#[trigger] levels@[k])@ == (
                    sides@[k] == '1',
                    hex_value(level_text(path_hex@, k)),
                ),
        decreases depth - i,
    {
        let from: usize = i * LEVEL_WIDTH;
        let slice = path_hex.substring_char(from, from + LEVEL_WIDTH);
        assert(slice@ == level_text(path_hex@, i as int));
        let sibling = match Scalar::parse(slice) {
            Ok(sibling) => sibling,
            Err(_) => {
                return Err(PipelineError::MalformedPath);
            },
        };
        let side = sides.get_char(i) == '1';
        levels.push(PathElement { side, sibling });
        i = i + 1;
    }
    proof {
        let want = decode_path_text(path_hex@, sides@);
        assert(is_path_text(path_hex@, sides@));
        assert(want->Ok_0 =~= path_view(levels@));
    }
    Ok(levels)
}

/// The texts of `levels` written one after another.
pub open spec fn concat_levels(levels: Seq<Seq<char>>) -> Seq<char>
    decreases levels.len(),
{
    if levels.len() == 0 {
        Seq::empty()
    } else {
        concat_levels(levels.drop_last()) + levels.last()
    }
}

proof fn lemma_concat_levels(levels: Seq<Seq<char>>)
    requires
        forall|i: int| 0 <= i < levels.len() ==> (#[trigger] levels[i]).len() == LEVEL_WIDTH,
    ensures
        concat_levels(levels).len() == LEVEL_WIDTH * levels.len(),
        forall|i: int|
            0 <= i < levels.len() ==> #[trigger] level_text(concat_levels(levels), i)
                == levels[i],
    decreases levels.len(),
{
    if levels.len() > 0 {
        let front = levels.drop_last();
        lemma_concat_levels(front);
        let whole = concat_levels(levels);
        assert forall|i: int| 0 <= i < levels.len() implies #[trigger] level_text(whole, i)
            == levels[i] by {
            if i < front.len() {
                assert(level_text(whole, i) =~= level_text(concat_levels(front), i));
                assert(front[i] == levels[i]);
            } else {
                assert(level_text(whole, i) =~= levels.last());
            }
        }
    }
}

/// A path of `d` levels, written as `d` sibling texts one after another and
/// `d` side characters, reads back as exactly those `d` levels, in order.
pub proof fn lemma_path_of_levels(levels: Seq<Seq<char>>, sides: Seq<char>)
    requires
        sides.len() == levels.len(),
        forall|i: int| 0 <= i < levels.len() ==> (#[trigger] levels[i]).len() == LEVEL_WIDTH,
        forall|i: int| 0 <= i < levels.len() ==> decode_scalar(#[trigger] levels[i]) is Ok,
    ensures
        decode_path_text(concat_levels(levels), sides) == Ok::<Seq<(bool, nat)>, PipelineError>(
            Seq::new(levels.len(), |i: int| (sides[i] == '1', hex_value(levels[i]))),
        ),
{
    lemma_concat_levels(levels);
    let path = concat_levels(levels);
    assert(path.len() / (LEVEL_WIDTH as nat) == levels.len());
    assert forall|i: int| 0 <= i < path.len() / (LEVEL_WIDTH as nat) implies (
    #[trigger] decode_scalar(level_text(path, i))) is Ok by {
        assert(level_text(path, i) == levels[i]);
    }
    assert(is_path_text(path, sides));
    assert(decode_path_text(path, sides)->Ok_0 =~= Seq::new(
        levels.len(),
        |i: int| (sides[i] == '1', hex_value(levels[i])),
    ));
}

/// A sibling text whose length is not a whole number of levels is refused.
pub proof fn lemma_ragged_path_refused(path: Seq<char>, sides: Seq<char>)
    requires
        path.len() % (LEVEL_WIDTH as nat) != 0,
    ensures
        decode_path_text(path, sides) == Err::<Seq<(bool, nat)>, PipelineError>(
            PipelineError::MalformedPath,
        ),
{
}

} // verus!

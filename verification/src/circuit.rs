//! The membership circuit, described as the sequence of gadget steps that
//! builds it.
//!
//! The constraint system itself belongs to the proving engine.  What is fixed
//! here is which steps are taken and in which order: which signals are
//! public, how the commitment is formed, how each level of the path is
//! folded in, and the one equality that ties the result to the root.  Whoever
//! drives the engine walks the steps and makes one gadget call for each.

use vstd::prelude::*;
use crate::hash::{
    climb, commitment_of, flip_bit, lemma_climb_push, lemma_flipped_root_rejected, parent_of,
    pedersen_hash_x, reconstructs, root_of, Domain, Hasher, MAX_DEPTH,
};
use crate::path::{path_view, PathElement};
use crate::scalar::{bits_le, Scalar, FIELD_BITS};

verus! {

/// A value of the witness.
#[derive(Clone, Copy, Debug, PartialEq, Eq, Structural)]
pub enum Signal {
    /// The public nullifier.
    Nullifier,
    /// The secret that only the prover knows.
    Secret,
    /// The public root of the tree.
    Root,
    /// The sibling at a level of the path.
    Sibling(usize),
}

/// A number that the circuit holds while it is built.
#[derive(Clone, Copy, Debug, PartialEq, Eq, Structural)]
pub enum Wire {
    Nullifier,
    Secret,
    Root,
    /// The running hash: the leaf at first, then the node of each level.
    Current,
    /// The sibling of the level at hand.
    Sibling,
    /// The left child of the level at hand.
    Left,
    /// The right child of the level at hand.
    Right,
}

/// One gadget call.
#[derive(Clone, Copy, Debug, PartialEq, Eq, Structural)]
pub enum Step {
    /// Allocate a private number for a value of the witness.  It is held in
    /// the wire of the same name; every sibling in `Wire::Sibling`.
    Allocate(Signal),
    /// Make a wire the next public input.
    Expose(Wire),
    /// Allocate the side bit of a level as a boolean.
    AllocateSide(usize),
    /// Append the bits of a wire to the preimage, least significant first,
    /// and enforce that they spell the wire's value without wrapping round
    /// the modulus.
    StrictBits(Wire),
    /// Append the bits of a wire to the preimage, least significant first.
    Bits(Wire),
    /// Hash the preimage under a domain into `Wire::Current` and start a new
    /// preimage.
    Hash(Domain),
    /// Set `(Left, Right)` to `(Current, Sibling)`, and to `(Sibling,
    /// Current)` where the side bit is set.
    Swap,
    /// Enforce that `Wire::Current` equals `Wire::Root`.
    EnforceRoot,
}

/// The wire that holds a value of the witness once it is allocated.
pub open spec fn wire_of(signal: Signal) -> Wire {
    match signal {
        Signal::Nullifier => Wire::Nullifier,
        Signal::Secret => Wire::Secret,
        Signal::Root => Wire::Root,
        Signal::Sibling(_) => Wire::Sibling,
    }
}

impl Signal {
    /// The wire that holds the signal once it is allocated.
    pub fn wire(&self) -> (wire: Wire)
        ensures
            wire == wire_of(*self),
    {
        match *self {
            Signal::Nullifier => Wire::Nullifier,
            Signal::Secret => Wire::Secret,
            Signal::Root => Wire::Root,
            Signal::Sibling(_) => Wire::Sibling,
        }
    }
}

/// The steps that form the leaf.  With `leaf_public` the leaf is a public
/// input as well.
pub open spec fn prologue(leaf_public: bool) -> Seq<Step> {
    let steps = seq![
        Step::Allocate(Signal::Nullifier),
        Step::Expose(Wire::Nullifier),
        Step::Allocate(Signal::Secret),
        Step::StrictBits(Wire::Nullifier),
        Step::StrictBits(Wire::Secret),
        Step::Hash(Domain::NoteCommitment),
    ];
    if leaf_public {
        steps.push(Step::Expose(Wire::Current))
    } else {
        steps
    }
}

/// The steps that fold one level of the path into the running hash.
pub open spec fn level_steps(level: usize) -> Seq<Step> {
    seq![
        Step::Allocate(Signal::Sibling(level)),
        Step::AllocateSide(level),
        Step::Swap,
        Step::Bits(Wire::Left),
        Step::Bits(Wire::Right),
        Step::Hash(Domain::MerkleTree(level)),
    ]
}

/// The steps of the first `depth` levels, leaf level first.
pub open spec fn levels(depth: usize) -> Seq<Step>
    decreases depth,
{
    if depth == 0 {
        Seq::empty()
    } else {
        levels((depth - 1) as usize) + level_steps((depth - 1) as usize)
    }
}

/// The steps that tie the running hash to the public root.
pub open spec fn epilogue() -> Seq<Step> {
    seq![Step::Allocate(Signal::Root), Step::Expose(Wire::Root), Step::EnforceRoot]
}

/// The whole circuit for a tree of a given depth.
pub open spec fn plan(depth: usize, leaf_public: bool) -> Seq<Step> {
    prologue(leaf_public) + levels(depth) + epilogue()
}

/// The wires that a sequence of steps makes public, in order.
pub open spec fn exposed(steps: Seq<Step>) -> Seq<Wire>
    decreases steps.len(),
{
    if steps.len() == 0 {
        Seq::empty()
    } else {
        match steps.last() {
            Step::Expose(wire) => exposed(steps.drop_last()).push(wire),
            _ => exposed(steps.drop_last()),
        }
    }
}

/// What the circuit holds at some point of its construction, as plain
/// numbers.
pub ghost struct Registers {
    pub nullifier: nat,
    pub secret: nat,
    pub root: nat,
    pub current: nat,
    pub sibling: nat,
    pub left: nat,
    pub right: nat,
    pub side: bool,
    pub preimage: Seq<bool>,
    /// The public inputs so far.
    pub inputs: Seq<nat>,
    /// Whether every equality enforced so far holds.
    pub holds: bool,
}

/// The values of a witness.
pub ghost struct Assignment {
    pub nullifier: nat,
    pub secret: nat,
    pub root: nat,
    pub path: Seq<(bool, nat)>,
}

/// The number on a wire.
pub open spec fn read(regs: Registers, wire: Wire) -> nat {
    match wire {
        Wire::Nullifier => regs.nullifier,
        Wire::Secret => regs.secret,
        Wire::Root => regs.root,
        Wire::Current => regs.current,
        Wire::Sibling => regs.sibling,
        Wire::Left => regs.left,
        Wire::Right => regs.right,
    }
}

/// What one step does to the registers.
pub open spec fn apply(regs: Registers, step: Step, w: Assignment) -> Registers {
    match step {
        Step::Allocate(Signal::Nullifier) => Registers { nullifier: w.nullifier, ..regs },
        Step::Allocate(Signal::Secret) => Registers { secret: w.secret, ..regs },
        Step::Allocate(Signal::Root) => Registers { root: w.root, ..regs },
        Step::Allocate(Signal::Sibling(level)) => Registers {
            sibling: w.path[level as int].1,
            ..regs
        },
        Step::Expose(wire) => Registers { inputs: regs.inputs.push(read(regs, wire)), ..regs },
        Step::AllocateSide(level) => Registers { side: w.path[level as int].0, ..regs },
        Step::StrictBits(wire) | Step::Bits(wire) => Registers {
            preimage: regs.preimage + bits_le(read(regs, wire), FIELD_BITS as nat),
            ..regs
        },
        Step::Hash(domain) => Registers {
            current: pedersen_hash_x(domain@, regs.preimage),
            preimage: Seq::empty(),
            ..regs
        },
        Step::Swap => if regs.side {
            Registers { left: regs.sibling, right: regs.current, ..regs }
        } else {
            Registers { left: regs.current, right: regs.sibling, ..regs }
        },
        Step::EnforceRoot => Registers { holds: regs.holds && regs.current == regs.root, ..regs },
    }
}

/// What a sequence of steps does to the registers.
pub open spec fn run(steps: Seq<Step>, start: Registers, w: Assignment) -> Registers
    decreases steps.len(),
{
    if steps.len() == 0 {
        start
    } else {
        apply(run(steps.drop_last(), start, w), steps.last(), w)
    }
}

/// The registers before the first step: nothing hashed, nothing exposed,
/// nothing violated.
pub open spec fn blank() -> Registers {
    Registers {
        nullifier: 0,
        secret: 0,
        root: 0,
        current: 0,
        sibling: 0,
        left: 0,
        right: 0,
        side: false,
        preimage: Seq::empty(),
        inputs: Seq::empty(),
        holds: true,
    }
}

proof fn lemma_run_push(steps: Seq<Step>, step: Step, start: Registers, w: Assignment)
    ensures
        run(steps.push(step), start, w) == apply(run(steps, start, w), step, w),
{
    assert(steps.push(step).drop_last() =~= steps);
}

proof fn lemma_run_concat(a: Seq<Step>, b: Seq<Step>, start: Registers, w: Assignment)
    ensures
        run(a + b, start, w) == run(b, run(a, start, w), w),
    decreases b.len(),
{
    if b.len() == 0 {
        assert(a + b =~= a);
    } else {
        lemma_run_concat(a, b.drop_last(), start, w);
        assert((a + b).drop_last() =~= a + b.drop_last());
    }
}

proof fn lemma_exposed_push(steps: Seq<Step>, step: Step)
    ensures
        exposed(steps.push(step)) == match step {
            Step::Expose(wire) => exposed(steps).push(wire),
            _ => exposed(steps),
        },
{
    assert(steps.push(step).drop_last() =~= steps);
}

proof fn lemma_exposed_concat(a: Seq<Step>, b: Seq<Step>)
    ensures
        exposed(a + b) == exposed(a) + exposed(b),
    decreases b.len(),
{
    if b.len() == 0 {
        assert(a + b =~= a);
        assert(exposed(a) + exposed(b) =~= exposed(a));
    } else {
        lemma_exposed_concat(a, b.drop_last());
        assert((a + b).drop_last() =~= a + b.drop_last());
        match b.last() {
            Step::Expose(wire) => {
                assert(exposed(a + b) =~= exposed(a) + exposed(b));
            },
            _ => {},
        }
    }
}

/// The prologue puts the commitment of the note on the running hash and
/// makes the nullifier public, and the leaf too where the shape asks for it.
proof fn lemma_prologue(leaf_public: bool, w: Assignment)
    ensures
        ({
            let end = run(prologue(leaf_public), blank(), w);
            &&& end.current == commitment_of(w.nullifier, w.secret)
            &&& end.preimage == Seq::<bool>::empty()
            &&& end.holds
            &&& end.inputs == if leaf_public {
                seq![w.nullifier, commitment_of(w.nullifier, w.secret)]
            } else {
                seq![w.nullifier]
            }
        }),
{
    let s0 = Seq::<Step>::empty();
    let s1 = s0.push(Step::Allocate(Signal::Nullifier));
    let s2 = s1.push(Step::Expose(Wire::Nullifier));
    let s3 = s2.push(Step::Allocate(Signal::Secret));
    let s4 = s3.push(Step::StrictBits(Wire::Nullifier));
    let s5 = s4.push(Step::StrictBits(Wire::Secret));
    let s6 = s5.push(Step::Hash(Domain::NoteCommitment));
    let s7 = s6.push(Step::Expose(Wire::Current));
    let b = blank();
    lemma_run_push(s0, Step::Allocate(Signal::Nullifier), b, w);
    lemma_run_push(s1, Step::Expose(Wire::Nullifier), b, w);
    lemma_run_push(s2, Step::Allocate(Signal::Secret), b, w);
    lemma_run_push(s3, Step::StrictBits(Wire::Nullifier), b, w);
    lemma_run_push(s4, Step::StrictBits(Wire::Secret), b, w);
    lemma_run_push(s5, Step::Hash(Domain::NoteCommitment), b, w);
    lemma_run_push(s6, Step::Expose(Wire::Current), b, w);
    assert(prologue(false) =~= s6);
    assert(prologue(true) =~= s7);
    let r4 = run(s4, b, w);
    let r5 = run(s5, b, w);
    assert(r4.preimage =~= bits_le(w.nullifier, FIELD_BITS as nat));
    assert(r5.preimage =~= bits_le(w.nullifier, FIELD_BITS as nat) + bits_le(
        w.secret,
        FIELD_BITS as nat,
    ));
    assert(run(s2, b, w).inputs =~= seq![w.nullifier]);
    assert(run(s7, b, w).inputs =~= seq![w.nullifier, commitment_of(w.nullifier, w.secret)]);
}

/// The steps of one level replace the running hash by its parent and leave
/// the public side of the circuit alone.
proof fn lemma_level(level: usize, start: Registers, w: Assignment)
    requires
        level < w.path.len(),
        start.preimage == Seq::<bool>::empty(),
    ensures
        ({
            let end = run(level_steps(level), start, w);
            &&& end.current == parent_of(
                level as nat,
                start.current,
                w.path[level as int].0,
                w.path[level as int].1,
            )
            &&& end.preimage == Seq::<bool>::empty()
            &&& end.nullifier == start.nullifier
            &&& end.secret == start.secret
            &&& end.root == start.root
            &&& end.inputs == start.inputs
            &&& end.holds == start.holds
        }),
{
    let s0 = Seq::<Step>::empty();
    let s1 = s0.push(Step::Allocate(Signal::Sibling(level)));
    let s2 = s1.push(Step::AllocateSide(level));
    let s3 = s2.push(Step::Swap);
    let s4 = s3.push(Step::Bits(Wire::Left));
    let s5 = s4.push(Step::Bits(Wire::Right));
    let s6 = s5.push(Step::Hash(Domain::MerkleTree(level)));
    lemma_run_push(s0, Step::Allocate(Signal::Sibling(level)), start, w);
    lemma_run_push(s1, Step::AllocateSide(level), start, w);
    lemma_run_push(s2, Step::Swap, start, w);
    lemma_run_push(s3, Step::Bits(Wire::Left), start, w);
    lemma_run_push(s4, Step::Bits(Wire::Right), start, w);
    lemma_run_push(s5, Step::Hash(Domain::MerkleTree(level)), start, w);
    assert(level_steps(level) =~= s6);
    let r3 = run(s3, start, w);
    let r4 = run(s4, start, w);
    let r5 = run(s5, start, w);
    assert(r4.preimage =~= bits_le(r3.left, FIELD_BITS as nat));
    assert(r5.preimage =~= bits_le(r3.left, FIELD_BITS as nat) + bits_le(
        r3.right,
        FIELD_BITS as nat,
    ));
}

/// The steps of the first `depth` levels climb the first `depth` levels of
/// the path.
proof fn lemma_levels(depth: usize, start: Registers, w: Assignment)
    requires
        depth <= w.path.len(),
        start.preimage == Seq::<bool>::empty(),
    ensures
        ({
            let end = run(levels(depth), start, w);
            &&& end.current == climb(0, start.current, w.path.take(depth as int))
            &&& end.preimage == Seq::<bool>::empty()
            &&& end.nullifier == start.nullifier
            &&& end.secret == start.secret
            &&& end.root == start.root
            &&& end.inputs == start.inputs
            &&& end.holds == start.holds
        }),
    decreases depth,
{
    if depth == 0 {
        assert(w.path.take(0) =~= Seq::<(bool, nat)>::empty());
    } else {
        let below = (depth - 1) as usize;
        lemma_levels(below, start, w);
        let mid = run(levels(below), start, w);
        lemma_level(below, mid, w);
        lemma_run_concat(levels(below), level_steps(below), start, w);
        lemma_climb_push(start.current, w.path.take(below as int), w.path[below as int]);
        assert(w.path.take(below as int).push(w.path[below as int]) =~= w.path.take(
            depth as int,
        ));
    }
}

/// The circuit is the fold.  Run on a witness whose path has the depth of
/// the tree, the steps of the circuit end with every enforced equality
/// holding exactly when the witness reconstructs the claimed root.  The
/// public inputs come out as the nullifier first and the root last, with the
/// leaf between them where the shape makes it public.
pub proof fn lemma_plan_checks_root(depth: usize, leaf_public: bool, w: Assignment)
    requires
        depth == w.path.len(),
    ensures
        run(plan(depth, leaf_public), blank(), w).holds == reconstructs(
            w.nullifier,
            w.secret,
            w.path,
            w.root,
        ),
        run(plan(depth, leaf_public), blank(), w).inputs == if leaf_public {
            seq![w.nullifier, commitment_of(w.nullifier, w.secret), w.root]
        } else {
            seq![w.nullifier, w.root]
        },
{
    let head = prologue(leaf_public);
    let body = levels(depth);
    lemma_prologue(leaf_public, w);
    let after_head = run(head, blank(), w);
    lemma_levels(depth, after_head, w);
    lemma_run_concat(head, body, blank(), w);
    let after_body = run(head + body, blank(), w);
    assert(w.path.take(depth as int) =~= w.path);
    lemma_run_concat(head + body, epilogue(), blank(), w);
    let s0 = Seq::<Step>::empty();
    let s1 = s0.push(Step::Allocate(Signal::Root));
    let s2 = s1.push(Step::Expose(Wire::Root));
    let s3 = s2.push(Step::EnforceRoot);
    lemma_run_push(s0, Step::Allocate(Signal::Root), after_body, w);
    lemma_run_push(s1, Step::Expose(Wire::Root), after_body, w);
    lemma_run_push(s2, Step::EnforceRoot, after_body, w);
    assert(epilogue() =~= s3);
    let end = run(plan(depth, leaf_public), blank(), w);
    assert(end.inputs =~= after_body.inputs.push(w.root));
    if leaf_public {
        assert(end.inputs =~= seq![w.nullifier, commitment_of(w.nullifier, w.secret), w.root]);
    } else {
        assert(end.inputs =~= seq![w.nullifier, w.root]);
    }
}

/// The constraints hold of a witness that claims the root it folds to, and
/// they fail once any one bit of that root is flipped.
pub proof fn lemma_holds_of_folded_root_only(
    depth: usize,
    leaf_public: bool,
    w: Assignment,
    bit: nat,
)
    requires
        depth == w.path.len(),
        w.root == root_of(w.nullifier, w.secret, w.path),
    ensures
        run(plan(depth, leaf_public), blank(), w).holds,
        !run(
            plan(depth, leaf_public),
            blank(),
            Assignment { root: flip_bit(w.root, bit), ..w },
        ).holds,
{
    let flipped = Assignment { root: flip_bit(w.root, bit), ..w };
    lemma_plan_checks_root(depth, leaf_public, w);
    lemma_plan_checks_root(depth, leaf_public, flipped);
    lemma_flipped_root_rejected(w.nullifier, w.secret, w.path, w.root, bit);
}

/// No level of the path adds a public signal.
proof fn lemma_levels_expose_nothing(depth: usize)
    ensures
        exposed(levels(depth)) == Seq::<Wire>::empty(),
    decreases depth,
{
    if depth > 0 {
        let level = (depth - 1) as usize;
        lemma_levels_expose_nothing(level);
        let s0 = Seq::<Step>::empty();
        let s1 = s0.push(Step::Allocate(Signal::Sibling(level)));
        let s2 = s1.push(Step::AllocateSide(level));
        let s3 = s2.push(Step::Swap);
        let s4 = s3.push(Step::Bits(Wire::Left));
        let s5 = s4.push(Step::Bits(Wire::Right));
        let s6 = s5.push(Step::Hash(Domain::MerkleTree(level)));
        lemma_exposed_push(s0, Step::Allocate(Signal::Sibling(level)));
        lemma_exposed_push(s1, Step::AllocateSide(level));
        lemma_exposed_push(s2, Step::Swap);
        lemma_exposed_push(s3, Step::Bits(Wire::Left));
        lemma_exposed_push(s4, Step::Bits(Wire::Right));
        lemma_exposed_push(s5, Step::Hash(Domain::MerkleTree(level)));
        assert(level_steps(level) =~= s6);
        lemma_exposed_concat(levels(level), level_steps(level));
    }
}

/// The public signals of the circuit are the nullifier first and the root
/// last, whatever the depth, with the leaf between them where the shape makes
/// it public.  This is the order in which verification hands its inputs to
/// the engine.
pub proof fn lemma_public_signals(depth: usize, leaf_public: bool)
    ensures
        exposed(plan(depth, leaf_public)) == if leaf_public {
            seq![Wire::Nullifier, Wire::Current, Wire::Root]
        } else {
            seq![Wire::Nullifier, Wire::Root]
        },
{
    let s0 = Seq::<Step>::empty();
    let s1 = s0.push(Step::Allocate(Signal::Nullifier));
    let s2 = s1.push(Step::Expose(Wire::Nullifier));
    let s3 = s2.push(Step::Allocate(Signal::Secret));
    let s4 = s3.push(Step::StrictBits(Wire::Nullifier));
    let s5 = s4.push(Step::StrictBits(Wire::Secret));
    let s6 = s5.push(Step::Hash(Domain::NoteCommitment));
    let s7 = s6.push(Step::Expose(Wire::Current));
    lemma_exposed_push(s0, Step::Allocate(Signal::Nullifier));
    lemma_exposed_push(s1, Step::Expose(Wire::Nullifier));
    lemma_exposed_push(s2, Step::Allocate(Signal::Secret));
    lemma_exposed_push(s3, Step::StrictBits(Wire::Nullifier));
    lemma_exposed_push(s4, Step::StrictBits(Wire::Secret));
    lemma_exposed_push(s5, Step::Hash(Domain::NoteCommitment));
    lemma_exposed_push(s6, Step::Expose(Wire::Current));
    assert(prologue(false) =~= s6);
    assert(prologue(true) =~= s7);
    let head = exposed(prologue(leaf_public));
    assert(head =~= if leaf_public {
        seq![Wire::Nullifier, Wire::Current]
    } else {
        seq![Wire::Nullifier]
    });
    let t0 = Seq::<Step>::empty();
    let t1 = t0.push(Step::Allocate(Signal::Root));
    let t2 = t1.push(Step::Expose(Wire::Root));
    let t3 = t2.push(Step::EnforceRoot);
    lemma_exposed_push(t0, Step::Allocate(Signal::Root));
    lemma_exposed_push(t1, Step::Expose(Wire::Root));
    lemma_exposed_push(t2, Step::EnforceRoot);
    assert(epilogue() =~= t3);
    assert(exposed(epilogue()) =~= seq![Wire::Root]);
    lemma_levels_expose_nothing(depth);
    lemma_exposed_concat(prologue(leaf_public), levels(depth));
    lemma_exposed_concat(prologue(leaf_public) + levels(depth), epilogue());
    assert(exposed(plan(depth, leaf_public)) =~= head + Seq::<Wire>::empty() + seq![Wire::Root]);
}

/// A full assignment of the signals of the circuit.
pub struct Witness {
    pub nullifier: Scalar,
    pub secret: Scalar,
    pub root: Scalar,
    /// The levels of the path, leaf level first.
    pub path: Vec<PathElement>,
}

impl View for Witness {
    type V = Assignment;

    open spec fn view(&self) -> Assignment {
        Assignment {
            nullifier: self.nullifier@,
            secret: self.secret@,
            root: self.root@,
            path: path_view(self.path@),
        }
    }
}

/// What a signal is assigned; `None` for a sibling above the path.
pub open spec fn signal_value(w: Assignment, signal: Signal) -> Option<nat> {
    match signal {
        Signal::Nullifier => Some(w.nullifier),
        Signal::Secret => Some(w.secret),
        Signal::Root => Some(w.root),
        Signal::Sibling(level) => if level < w.path.len() {
            Some(w.path[level as int].1)
        } else {
            None
        },
    }
}

/// The side bit of a level; `None` above the path.
pub open spec fn side_value(w: Assignment, level: usize) -> Option<bool> {
    if level < w.path.len() {
        Some(w.path[level as int].0)
    } else {
        None
    }
}

/// A circuit of a fixed shape, with its signals either all assigned, for
/// proving, or all left open, for the setup.  An instance is used for one
/// synthesis.
pub struct CircuitInstance {
    depth: usize,
    leaf_public: bool,
    witness: Option<Witness>,
}

impl CircuitInstance {
    #[verifier::type_invariant]
    spec fn well_formed(&self) -> bool {
        &&& self.depth <= MAX_DEPTH
        &&& self.witness matches Some(w) ==> w.path@.len() == self.depth
    }

    /// The depth of the tree that the circuit is built for.
    pub closed spec fn tree_depth(&self) -> usize {
        self.depth
    }

    /// Whether the leaf is a public input.
    pub closed spec fn exposes_leaf(&self) -> bool {
        self.leaf_public
    }

    /// The values of the signals, where they are assigned.
    pub closed spec fn assignment(&self) -> Option<Assignment> {
        match self.witness {
            Some(w) => Some(w@),
            None => None,
        }
    }

    /// The circuit of a given depth with every signal left open; `None`
    /// when the depth is more than the hash has levels.
    pub fn unassigned(depth: usize, leaf_public: bool) -> (r: Option<CircuitInstance>)
        ensures
            match r {
                Some(c) => {
                    &&& depth <= MAX_DEPTH
                    &&& c.tree_depth() == depth
                    &&& c.exposes_leaf() == leaf_public
                    &&& c.assignment() is None
                },
                None => depth > MAX_DEPTH,
            },
    {
        if depth > MAX_DEPTH {
            None
        } else {
            Some(CircuitInstance { depth, leaf_public, witness: None })
        }
    }

    /// The circuit for a witness, as deep as its path; `None` when the path
    /// is deeper than the hash has levels.
    pub fn assigned(witness: Witness, leaf_public: bool) -> (r: Option<CircuitInstance>)
        ensures
            match r {
                Some(c) => {
                    &&& witness.path@.len() <= MAX_DEPTH
                    &&& c.tree_depth() == witness.path@.len()
                    &&& c.exposes_leaf() == leaf_public
                    &&& c.assignment() == Some(witness@)
                },
                None => witness.path@.len() > MAX_DEPTH,
            },
    {
        let depth: usize = witness.path.len();
        if depth > MAX_DEPTH {
            None
        } else {
            Some(CircuitInstance { depth, leaf_public, witness: Some(witness) })
        }
    }

    /// The depth of the tree that the circuit is built for.
    pub fn depth(&self) -> (d: usize)
        ensures
            d == self.tree_depth(),
            d <= MAX_DEPTH,
    {
        proof {
            use_type_invariant(self);
        }
        self.depth
    }

    /// Whether the leaf is a public input.
    pub fn leaf_public(&self) -> (b: bool)
        ensures
            b == self.exposes_leaf(),
    {
        self.leaf_public
    }

    /// Whether the signals are assigned.
    pub fn is_assigned(&self) -> (b: bool)
        ensures
            b == self.assignment().is_some(),
    {
        self.witness.is_some()
    }

    /// The gadget steps that build the circuit, in order.
    pub fn steps(&self) -> (out: Vec<Step>)
        ensures
            out@ == plan(self.tree_depth(), self.exposes_leaf()),
    {
        proof {
            use_type_invariant(self);
        }
        let mut out: Vec<Step> = Vec::new();
        out.push(Step::Allocate(Signal::Nullifier));
        out.push(Step::Expose(Wire::Nullifier));
        out.push(Step::Allocate(Signal::Secret));
        out.push(Step::StrictBits(Wire::Nullifier));
        out.push(Step::StrictBits(Wire::Secret));
        out.push(Step::Hash(Domain::NoteCommitment));
        if self.leaf_public {
            out.push(Step::Expose(Wire::Current));
        }
        assert(out@ =~= prologue(self.leaf_public) + levels(0));
        let mut level: usize = 0;
        while level < self.depth
            invariant
                level <= self.depth,
                out@ == prologue(self.leaf_public) + levels(level),
            decreases self.depth - level,
        {
            let ghost before = out@;
            out.push(Step::Allocate(Signal::Sibling(level)));
            out.push(Step::AllocateSide(level));
            out.push(Step::Swap);
            out.push(Step::Bits(Wire::Left));
            out.push(Step::Bits(Wire::Right));
            out.push(Step::Hash(Domain::MerkleTree(level)));
            assert(out@ =~= before + level_steps(level));
            assert(levels((level + 1) as usize) == levels(level) + level_steps(level));
            assert(before + level_steps(level) =~= prologue(self.leaf_public) + levels(
                (level + 1) as usize,
            ));
            level = level + 1;
        }
        let ghost body = out@;
        out.push(Step::Allocate(Signal::Root));
        out.push(Step::Expose(Wire::Root));
        out.push(Step::EnforceRoot);
        assert(out@ =~= body + epilogue());
        out
    }

    /// What a signal is assigned; `None` while the circuit is unassigned,
    /// and for a sibling above the path.
    pub fn value(&self, signal: Signal) -> (r: Option<Scalar>)
        ensures
            match self.assignment() {
                Some(w) => match r {
                    Some(s) => signal_value(w, signal) == Some(s@),
                    None => signal_value(w, signal) is None,
                },
                None => r is None,
            },
    {
        match &self.witness {
            None => None,
            Some(w) => match signal {
                Signal::Nullifier => Some(w.nullifier.duplicate()),
                Signal::Secret => Some(w.secret.duplicate()),
                Signal::Root => Some(w.root.duplicate()),
                Signal::Sibling(level) => if level < w.path.len() {
                    assert(path_view(w.path@)[level as int] == w.path@[level as int]@);
                    Some(w.path[level].sibling.duplicate())
                } else {
                    None
                },
            },
        }
    }

    /// The side bit of a level; `None` while the circuit is unassigned, and
    /// above the path.
    pub fn side(&self, level: usize) -> (r: Option<bool>)
        ensures
            r == match self.assignment() {
                Some(w) => side_value(w, level),
                None => None,
            },
    {
        match &self.witness {
            None => None,
            Some(w) => if level < w.path.len() {
                assert(path_view(w.path@)[level as int] == w.path@[level as int]@);
                Some(w.path[level].side)
            } else {
                None
            },
        }
    }

    /// Whether the constraints of the circuit hold of the assigned witness,
    /// found by hashing outside the circuit; `None` while the circuit is
    /// unassigned.
    pub fn satisfied(&self, hasher: &Hasher) -> (r: Option<bool>)
        ensures
            match self.assignment() {
                Some(w) => r == Some(
                    run(plan(self.tree_depth(), self.exposes_leaf()), blank(), w).holds,
                ),
                None => r is None,
            },
    {
        proof {
            use_type_invariant(self);
        }
        match &self.witness {
            None => None,
            Some(w) => {
                proof {
                    lemma_plan_checks_root(self.depth, self.leaf_public, w@);
                }
                hasher.check(&w.nullifier, &w.secret, &w.path, &w.root)
            },
        }
    }
}

} // verus!

//! The layout of values in the managed runtime.
//!
//! OCaml has two kinds of value: an integer that is held in the word itself,
//! and a pointer to a block on the heap. A block has a tag and a number of
//! slots, each again a value; strings and boxed numbers are blocks of their
//! own kinds. Nothing in a value says which type it has.

use vstd::prelude::*;

verus! {

/// What a managed value is, as mathematics: either an unboxed integer or a
/// block on the managed heap. Every contract of this crate speaks of trees.
pub enum Tree {
    /// An unboxed integer. Unit, `false`, the empty list, the absent option
    /// and the first payload-free case of a variant are all `Int(0)`. OCaml
    /// keeps 63 bits of such an integer; the tree keeps the native 64, and it
    /// is for the driver to see to what does not fit.
    Int(i64),
    /// A boxed floating-point number, held as its IEEE-754 bit pattern.
    Float(u64),
    /// A boxed 32-bit integer.
    Int32(i32),
    /// A boxed 64-bit integer.
    Int64(i64),
    /// A byte string.
    Bytes(Seq<u8>),
    /// A tagged block and its slots, in order.
    Block(u8, Seq<Tree>),
}

/// A managed value as native code holds it while converting: a native copy
/// with the same shape. Its view is the tree that it stands for.
#[derive(Debug, PartialEq, Eq)]
pub enum Value {
    Int(i64),
    Float(u64),
    Int32(i32),
    Int64(i64),
    Bytes(Vec<u8>),
    Block(u8, Vec<Value>),
}

/// The tree that a value stands for.
pub open spec fn tree_of(value: Value) -> Tree
    decreases value, 0nat,
{
    match value {
        Value::Int(n) => Tree::Int(n),
        Value::Float(bits) => Tree::Float(bits),
        Value::Int32(n) => Tree::Int32(n),
        Value::Int64(n) => Tree::Int64(n),
        Value::Bytes(bytes) => Tree::Bytes(bytes@),
        Value::Block(tag, slots) => Tree::Block(tag, trees(slots@)),
    }
}

/// The trees of a sequence of values, slot by slot.
pub open spec fn trees(values: Seq<Value>) -> Seq<Tree>
    decreases values, 1nat,
{
    if values.len() == 0 {
        Seq::empty()
    } else {
        trees(values.drop_last()).push(tree_of(values.last()))
    }
}

impl View for Value {
    type V = Tree;

    open spec fn view(&self) -> Tree {
        tree_of(*self)
    }
}

/// `trees` keeps the length and takes the view of each slot.
pub proof fn lemma_trees(values: Seq<Value>)
    ensures
        trees(values).len() == values.len(),
        forall|i: int| 0 <= i < values.len() ==> #[trigger] trees(values)[i] == values[i]@,
    decreases values.len(),
{
    if values.len() > 0 {
        lemma_trees(values.drop_last());
    }
}

/// The number of values in a value: itself and, for a block, all that its
/// slots hold.
pub open spec fn weight(value: Value) -> nat
    decreases value, 0nat,
{
    match value {
        Value::Block(_, slots) => 1 + weights(slots@),
        _ => 1,
    }
}

/// The number of values in a sequence of values.
pub open spec fn weights(values: Seq<Value>) -> nat
    decreases values, 1nat,
{
    if values.len() == 0 {
        0
    } else {
        weights(values.drop_last()) + weight(values.last())
    }
}

/// The weight of two sequences joined is the sum of their weights.
proof fn lemma_weights_join(front: Seq<Value>, back: Seq<Value>)
    ensures
        weights(front + back) == weights(front) + weights(back),
    decreases back.len(),
{
    if back.len() == 0 {
        assert(front + back =~= front);
    } else {
        lemma_weights_join(front, back.drop_last());
        assert((front + back).drop_last() =~= front + back.drop_last());
        assert((front + back).last() == back.last());
    }
}

/// The tree that has `inner` in the last slot of its innermost block. Each
/// level is a block, given by its tag and its slots but the last, and sits
/// in the last slot of the level before it; the first level is the tree
/// itself.
spec fn nest(levels: Seq<(u8, Seq<Tree>)>, inner: Tree) -> Tree
    decreases levels.len(),
{
    if levels.len() == 0 {
        inner
    } else {
        nest(
            levels.drop_last(),
            Tree::Block(levels.last().0, levels.last().1.push(inner)),
        )
    }
}

/// The levels of `nest`, as mathematics.
spec fn level_trees(levels: Seq<(u8, Vec<Value>)>) -> Seq<(u8, Seq<Tree>)> {
    Seq::new(levels.len(), |i: int| (levels[i].0, trees(levels[i].1@)))
}

/// No value of a sequence weighs more than the sequence.
proof fn lemma_weights_at(values: Seq<Value>, i: int)
    requires
        0 <= i < values.len(),
    ensures
        weight(values[i]) <= weights(values),
    decreases values.len(),
{
    if i < values.len() - 1 {
        lemma_weights_at(values.drop_last(), i);
    }
}

impl Value {
    /// A deep copy. Nesting through the last slot of a block, which is how
    /// a list nests, is walked in a loop; the copy recurses only into the
    /// other slots.
    pub fn duplicate(&self) -> (copy: Value)
        ensures
            copy@ == self@,
        decreases weight(*self),
    {
        let mut levels: Vec<(u8, Vec<Value>)> = Vec::new();
        let mut inner: &Value = self;
        let mut copy: Value = Value::Int(0);
        loop
            invariant_except_break
                self@ == nest(level_trees(levels@), inner@),
                weight(*inner) <= weight(*self),
            ensures
                self@ == nest(level_trees(levels@), copy@),
            decreases weight(*inner),
        {
            match inner {
                Value::Int(n) => {
                    copy = Value::Int(*n);
                    break ;
                },
                Value::Float(bits) => {
                    copy = Value::Float(*bits);
                    break ;
                },
                Value::Int32(n) => {
                    copy = Value::Int32(*n);
                    break ;
                },
                Value::Int64(n) => {
                    copy = Value::Int64(*n);
                    break ;
                },
                Value::Bytes(bytes) => {
                    copy = Value::Bytes(bytes.clone());
                    break ;
                },
                Value::Block(tag, slots) => {
                    if slots.len() == 0 {
                        copy = Value::Block(*tag, Vec::new());
                        proof {
                            assert(trees(slots@) =~= trees(Seq::<Value>::empty()));
                        }
                        break ;
                    }
                    let last = slots.len() - 1;
                    let mut heads: Vec<Value> = Vec::new();
                    let mut i: usize = 0;
                    while i < last
                        invariant
                            i <= last,
                            last == slots.len() - 1,
                            heads@.len() == i,
                            weights(slots@) < weight(*self),
                            forall|j: int| 0 <= j < i ==> #[trigger] heads@[j]@ == slots@[j]@,
                        decreases last - i,
                    {
                        proof {
                            lemma_weights_at(slots@, i as int);
                        }
                        heads.push(slots[i].duplicate());
                        i += 1;
                    }
                    proof {
                        let before = level_trees(levels@);
                        lemma_trees(heads@);
                        lemma_trees(slots@);
                        assert(trees(slots@) =~= trees(heads@).push(slots@[last as int]@));
                        let after = before.push((*tag, trees(heads@)));
                        assert(after.drop_last() =~= before);
                        assert(level_trees(levels@.push((*tag, heads))) =~= after);
                        lemma_weights_at(slots@, last as int);
                    }
                    levels.push((*tag, heads));
                    inner = &slots[last];
                },
            }
        }
        while levels.len() > 0
            invariant
                self@ == nest(level_trees(levels@), copy@),
            decreases levels.len(),
        {
            let ghost before = levels@;
            let ghost within = copy@;
            let (tag, mut heads) = levels.pop().unwrap();
            proof {
                lemma_trees(heads@);
                assert(level_trees(before).drop_last() =~= level_trees(levels@));
            }
            let ghost front = trees(heads@);
            heads.push(copy);
            proof {
                lemma_trees(heads@);
                assert(trees(heads@) =~= front.push(within));
            }
            copy = Value::Block(tag, heads);
        }
        copy
    }

    /// Takes the value apart and frees it piece by piece, in a loop. A list
    /// nests as deep as it is long, and freeing one by simply letting go of
    /// it costs a stack frame per element; this costs none.
    pub fn dismantle(self) {
        let mut pieces: Vec<Value> = vec![self];
        while pieces.len() > 0
            decreases weights(pieces@),
        {
            let ghost before = pieces@;
            let piece = pieces.pop().unwrap();
            proof {
                assert(before.drop_last() =~= pieces@);
                assert(weights(before) == weights(pieces@) + weight(piece));
            }
            match piece {
                Value::Block(_, mut slots) => {
                    proof {
                        lemma_weights_join(pieces@, slots@);
                    }
                    pieces.append(&mut slots);
                },
                _ => {},
            }
        }
    }
}

} // verus!

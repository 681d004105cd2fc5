//! The runtime handle, its root frames, and the call gateway.
//!
//! The collector of the managed runtime may move or reclaim a value at any
//! allocation and during any call. A handle that was just made is therefore
//! good only until the next allocation or call; one that was registered with
//! the innermost open frame stays good until that frame closes. `Runtime`
//! keeps the books of this protocol, and the `requires` clauses of its
//! methods are the protocol: verified code cannot use a handle that is no
//! longer good.
//!
//! The runtime itself is driven from outside. `invoke` hands out a `Call`
//! for the driver to perform; `accept` takes the `Reply` that it brings back.

use crate::codec::ShapeError;
use crate::value::{lemma_trees, trees, Tree, Value};
use vstd::prelude::*;

verus! {

/// An open root frame, as mathematics.
pub struct FrameState {
    /// Whether handles can be registered with the frame.
    pub keeps: bool,
    /// The registered values, in order of registration.
    pub roots: Seq<Tree>,
    /// The number of frames that had been opened before this one.
    pub serial: nat,
}

/// The state of the runtime, as mathematics.
pub struct RuntimeState {
    /// Whether the managed runtime has been initialized.
    pub started: bool,
    /// Whether a call has been handed out and its reply not yet taken.
    pub awaiting: bool,
    /// The open frames, outermost first.
    pub frames: Seq<FrameState>,
    /// The names of the entry points bound so far, in order of binding.
    pub bound: Seq<Seq<char>>,
    /// The number of allocations, calls and replies so far.
    pub epoch: nat,
    /// The number of frames opened so far.
    pub opened: nat,
}

impl RuntimeState {
    /// A runtime that has not been initialized.
    pub open spec fn initial() -> RuntimeState {
        RuntimeState {
            started: false,
            awaiting: false,
            frames: Seq::empty(),
            bound: Seq::empty(),
            epoch: 0,
            opened: 0,
        }
    }

    /// What every reachable state satisfies: frames are open only in a
    /// started runtime, a call is awaited only inside a frame, the frames'
    /// serial numbers grow from the outermost to the innermost and are below
    /// the count of frames opened, and no name is bound twice.
    pub open spec fn wf(self) -> bool {
        &&& !self.started ==> self.frames.len() == 0 && self.bound.len() == 0
        &&& self.awaiting ==> self.frames.len() > 0
        &&& forall|i: int| 0 <= i < self.frames.len() ==> (#[trigger] self.frames[i]).serial
            < self.opened
        &&& forall|i: int, j: int|
            0 <= i < j < self.frames.len() ==> (#[trigger] self.frames[i]).serial < (
            #[trigger] self.frames[j]).serial
        &&& forall|i: int, j: int|
            0 <= i < j < self.bound.len() ==> #[trigger] self.bound[i] != #[trigger] self.bound[j]
    }

    /// Whether frames can be opened and closed, values allocated and handles
    /// registered: the runtime is initialized and is not inside a call.
    pub open spec fn ready(self) -> bool {
        self.started && !self.awaiting
    }

    /// The state after initialization. Initializing a started runtime
    /// changes nothing.
    pub open spec fn start(self) -> RuntimeState {
        RuntimeState { started: true, ..self }
    }

    /// The state after a frame is opened inside the open ones.
    pub open spec fn open(self, keeps: bool) -> RuntimeState {
        RuntimeState {
            frames: self.frames.push(
                FrameState { keeps, roots: Seq::empty(), serial: self.opened },
            ),
            opened: self.opened + 1,
            ..self
        }
    }

    /// The state after the innermost frame is closed: the frame is gone with
    /// every root it held, and the frames around it are as they were.
    pub open spec fn close(self) -> RuntimeState {
        RuntimeState { frames: self.frames.drop_last(), ..self }
    }

    /// The state after an allocation.
    pub open spec fn allocate(self) -> RuntimeState {
        RuntimeState { epoch: self.epoch + 1, ..self }
    }

    /// The state after a value is registered with the innermost frame.
    pub open spec fn keep(self, root: Tree) -> RuntimeState {
        let top = self.frames.last();
        RuntimeState {
            frames: self.frames.drop_last().push(
                FrameState { roots: top.roots.push(root), ..top },
            ),
            ..self
        }
    }

    /// Whether `index` is the place of `name` among the bound names: the
    /// first place that holds it.
    pub open spec fn binds(self, name: Seq<char>, index: int) -> bool {
        &&& 0 <= index < self.bound.len()
        &&& self.bound[index] == name
        &&& forall|j: int| 0 <= j < index ==> self.bound[j] != name
    }

    /// The state after a name is bound. Binding a bound name changes
    /// nothing.
    pub open spec fn bind(self, name: Seq<char>) -> RuntimeState {
        if self.bound.contains(name) {
            self
        } else {
            RuntimeState { bound: self.bound.push(name), ..self }
        }
    }

    /// The state after a call is handed out.
    pub open spec fn call(self) -> RuntimeState {
        RuntimeState { awaiting: true, epoch: self.epoch + 1, ..self }
    }

    /// The state after the reply to a call is taken.
    pub open spec fn reply(self) -> RuntimeState {
        RuntimeState { awaiting: false, epoch: self.epoch + 1, ..self }
    }
}

/// A root frame as the runtime holds it.
struct Frame {
    keeps: bool,
    roots: Vec<Value>,
    serial: Ghost<nat>,
}

impl Frame {
    spec fn state(self) -> FrameState {
        FrameState { keeps: self.keeps, roots: trees(self.roots@), serial: self.serial@ }
    }
}

/// The handle to the managed runtime. There is one per process; every
/// operation on managed values takes it.
pub struct Runtime {
    started: bool,
    awaiting: bool,
    frames: Vec<Frame>,
    names: Vec<String>,
    epoch: Ghost<nat>,
    opened: Ghost<nat>,
}

impl View for Runtime {
    type V = RuntimeState;

    closed spec fn view(&self) -> RuntimeState {
        RuntimeState {
            started: self.started,
            awaiting: self.awaiting,
            frames: Seq::new(self.frames@.len(), |i: int| self.frames@[i].state()),
            bound: Seq::new(self.names@.len(), |i: int| self.names@[i]@),
            epoch: self.epoch@,
            opened: self.opened@,
        }
    }
}

/// A handle to a managed value that nothing keeps alive: it is good until
/// the next allocation, call or reply. A handle to an unboxed integer is
/// good for ever.
pub struct Handle {
    value: Value,
    stamp: Ghost<Option<nat>>,
}

impl View for Handle {
    type V = Tree;

    closed spec fn view(&self) -> Tree {
        self.value@
    }
}

impl Handle {
    /// The epoch in which the handle was made, or nothing for a handle to an
    /// unboxed integer.
    pub closed spec fn stamp(&self) -> Option<nat> {
        self.stamp@
    }

    /// Whether the handle is still good in the given state: it was made in
    /// the state's epoch, or it is a handle to an unboxed integer.
    pub open spec fn live(&self, s: RuntimeState) -> bool {
        self.stamp() matches Some(epoch) ==> epoch == s.epoch
    }

    /// Lets go of the handle, freeing the native copy of the value without
    /// recursion.
    pub fn release(self) {
        self.value.dismantle()
    }
}

/// A handle to a value registered with a frame: it is good until that frame
/// closes, whatever is allocated or called meanwhile.
pub struct Rooted {
    frame: usize,
    slot: usize,
    serial: Ghost<nat>,
}

impl Rooted {
    /// The depth of the frame that holds the root, 0 for the outermost.
    pub closed spec fn frame(&self) -> int {
        self.frame as int
    }

    /// The root's place in its frame.
    pub closed spec fn slot(&self) -> int {
        self.slot as int
    }

    /// The serial number of the frame that holds the root.
    pub closed spec fn serial(&self) -> nat {
        self.serial@
    }

    /// Whether the handle is still good in the given state: its frame is
    /// still open.
    pub open spec fn live(&self, s: RuntimeState) -> bool {
        &&& 0 <= self.frame() < s.frames.len()
        &&& s.frames[self.frame()].serial == self.serial()
        &&& 0 <= self.slot() < s.frames[self.frame()].roots.len()
    }

    /// The value that the handle refers to.
    pub open spec fn tree(&self, s: RuntimeState) -> Tree {
        s.frames[self.frame()].roots[self.slot()]
    }
}

/// A named entry point of the managed runtime, bound once and then reused.
#[derive(Debug)]
pub struct EntryPoint {
    index: usize,
    name: String,
}

impl EntryPoint {
    /// The entry point's place among the bound ones.
    pub closed spec fn index(&self) -> int {
        self.index as int
    }

    /// The name under which the managed side registered the entry point.
    pub closed spec fn name(&self) -> Seq<char> {
        self.name@
    }

    /// Whether the entry point is one that the given state has bound.
    pub open spec fn bound_in(&self, s: RuntimeState) -> bool {
        s.binds(self.name(), self.index())
    }
}

/// A call for the driver to perform, as mathematics.
pub struct CallView {
    pub entry: int,
    pub name: Seq<char>,
    pub args: Seq<Tree>,
}

/// A call for the driver to perform: the entry point, by its place among
/// the bound ones and by its name, and the arguments in order.
#[derive(Debug, PartialEq, Eq)]
pub struct Call {
    pub entry: usize,
    pub name: String,
    pub args: Vec<Value>,
}

impl View for Call {
    type V = CallView;

    open spec fn view(&self) -> CallView {
        CallView { entry: self.entry as int, name: self.name@, args: trees(self.args@) }
    }
}

impl Call {
    /// Lets go of a call that has been performed, freeing the native copies
    /// of its arguments without recursion.
    pub fn release(self) {
        let mut args = self.args;
        while args.len() > 0
            decreases args.len(),
        {
            let arg = args.pop().unwrap();
            arg.dismantle();
        }
    }
}

/// How a call ended, as mathematics.
pub enum ReplyView {
    Returned(Tree),
    Raised(Seq<char>),
}

/// How a call ended: with a value, or with a failure on the managed side and
/// its description.
#[derive(Debug, PartialEq, Eq)]
pub enum Reply {
    Returned(Value),
    Raised(String),
}

impl View for Reply {
    type V = ReplyView;

    open spec fn view(&self) -> ReplyView {
        match self {
            Reply::Returned(v) => ReplyView::Returned(v@),
            Reply::Raised(message) => ReplyView::Raised(message@),
        }
    }
}

/// Why a call gave no native result, as mathematics.
pub enum Failure {
    Failed(Seq<char>),
    Shape(ShapeError),
}

/// Why a call gave no native result.
#[derive(Debug, PartialEq, Eq)]
pub enum CallError {
    /// The entry point failed on the managed side; this is its description.
    Failed(String),
    /// The entry point returned a value that is not of the declared type.
    Shape(ShapeError),
}

impl View for CallError {
    type V = Failure;

    open spec fn view(&self) -> Failure {
        match self {
            CallError::Failed(message) => Failure::Failed(message@),
            CallError::Shape(e) => Failure::Shape(*e),
        }
    }
}

/// The trees of a sequence of handles, in order.
pub open spec fn handle_trees(handles: Seq<Handle>) -> Seq<Tree> {
    Seq::new(handles.len(), |i: int| handles[i]@)
}

impl Runtime {
    /// The handle to a runtime that has not been initialized.
    pub fn new() -> (rt: Runtime)
        ensures
            rt@ == RuntimeState::initial(),
    {
        let rt = Runtime {
            started: false,
            awaiting: false,
            frames: Vec::new(),
            names: Vec::new(),
            epoch: Ghost(0),
            opened: Ghost(0),
        };
        assert(rt@.frames =~= Seq::empty());
        assert(rt@.bound =~= Seq::empty());
        rt
    }

    /// Initializes the managed runtime if that has not been done. Doing it
    /// again is safe and changes nothing.
    pub fn init_once(&mut self)
        ensures
            final(self)@ == old(self)@.start(),
    {
        self.started = true;
    }

    /// Whether the managed runtime has been initialized.
    pub fn is_started(&self) -> (b: bool)
        ensures
            b == self@.started,
    {
        self.started
    }

    /// Whether a call has been handed out and its reply not yet taken.
    pub fn is_awaiting(&self) -> (b: bool)
        ensures
            b == self@.awaiting,
    {
        self.awaiting
    }

    /// The number of open frames.
    pub fn depth(&self) -> (n: usize)
        ensures
            n == self@.frames.len(),
    {
        self.frames.len()
    }

    /// Whether handles can be registered with the innermost open frame.
    pub fn keeps(&self) -> (b: bool)
        ensures
            b == (self@.frames.len() > 0 && self@.frames.last().keeps),
    {
        let n = self.frames.len();
        n > 0 && self.frames[n - 1].keeps
    }

    fn push_frame(&mut self, keeps: bool)
        ensures
            final(self)@ == old(self)@.open(keeps),
    {
        let ghost serial = self.opened@;
        self.opened = Ghost((serial + 1) as nat);
        self.frames.push(Frame { keeps, roots: Vec::new(), serial: Ghost(serial) });
        proof {
            assert(self@.frames =~= old(self)@.open(keeps).frames);
        }
    }

    /// Opens a frame inside the open ones. Handles can be registered with
    /// it.
    pub fn open_frame(&mut self)
        requires
            old(self)@.ready(),
        ensures
            final(self)@ == old(self)@.open(true),
    {
        self.push_frame(true)
    }

    /// Opens a frame with which no handle can be registered: for code that
    /// uses each handle before it allocates or calls again. Such a frame
    /// keeps no books of roots.
    pub fn open_frame_nokeep(&mut self)
        requires
            old(self)@.ready(),
        ensures
            final(self)@ == old(self)@.open(false),
    {
        self.push_frame(false)
    }

    /// Closes the innermost frame and releases every root registered with
    /// it. The frames around it are not touched.
    pub fn close_frame(&mut self)
        requires
            !old(self)@.awaiting,
            old(self)@.frames.len() > 0,
        ensures
            final(self)@ == old(self)@.close(),
    {
        let frame = self.frames.pop().unwrap();
        proof {
            assert(self@.frames =~= old(self)@.close().frames);
        }
        let mut roots = frame.roots;
        while roots.len() > 0
            decreases roots.len(),
        {
            let root = roots.pop().unwrap();
            root.dismantle();
        }
    }

    /// Places a value on the managed heap and gives the handle to it. Every
    /// unrooted handle made before is no longer good.
    pub fn allocate(&mut self, value: Value) -> (h: Handle)
        requires
            old(self)@.ready(),
            old(self)@.frames.len() > 0,
        ensures
            final(self)@ == old(self)@.allocate(),
            h@ == value@,
            h.stamp() == Some(final(self)@.epoch),
    {
        let ghost epoch = (self.epoch@ + 1) as nat;
        self.epoch = Ghost(epoch);
        Handle { value, stamp: Ghost(Some(epoch)) }
    }

    /// The handle to an unboxed integer. Nothing is allocated, and the
    /// handle is good in every state.
    pub fn unboxed(n: i64) -> (h: Handle)
        ensures
            h@ == Tree::Int(n),
            h.stamp() is None,
    {
        Handle { value: Value::Int(n), stamp: Ghost(None) }
    }

    /// Registers a value with the innermost frame, so that it stays good
    /// across allocations and calls until that frame closes.
    pub fn keep(&mut self, handle: Handle) -> (rooted: Rooted)
        requires
            old(self)@.ready(),
            old(self)@.frames.len() > 0,
            old(self)@.frames.last().keeps,
            handle.live(old(self)@),
        ensures
            final(self)@ == old(self)@.keep(handle@),
            rooted.live(final(self)@),
            rooted.tree(final(self)@) == handle@,
            rooted.frame() == old(self)@.frames.len() - 1,
            rooted.slot() == old(self)@.frames.last().roots.len(),
    {
        let depth = self.frames.len();
        let mut top = self.frames.pop().unwrap();
        let ghost before = top.roots@;
        let slot = top.roots.len();
        let rooted = Rooted { frame: depth - 1, slot, serial: top.serial };
        top.roots.push(handle.value);
        proof {
            lemma_trees(before);
            lemma_trees(top.roots@);
            assert(trees(top.roots@) =~= trees(before).push(handle@));
        }
        self.frames.push(top);
        proof {
            assert(self@.frames =~= old(self)@.keep(handle@).frames);
        }
        rooted
    }

    /// A fresh handle to a registered value. Like any unrooted handle it is
    /// good until the next allocation or call.
    pub fn get(&self, rooted: &Rooted) -> (h: Handle)
        requires
            !self@.awaiting,
            rooted.live(self@),
        ensures
            h@ == rooted.tree(self@),
            h.stamp() == Some(self@.epoch),
    {
        proof {
            lemma_trees(self.frames@[rooted.frame as int].roots@);
        }
        let value = self.frames[rooted.frame].roots[rooted.slot].duplicate();
        Handle { value, stamp: Ghost(Some(self.epoch@)) }
    }

    /// The managed value behind a handle that is still good.
    pub fn read<'a>(&self, handle: &'a Handle) -> (v: &'a Value)
        requires
            handle.live(self@),
        ensures
            v@ == handle@,
    {
        &handle.value
    }

    /// Resolves a name to an entry point of the managed runtime. The first
    /// resolution of a name records it; every later one finds the record and
    /// gives the same entry point.
    pub fn bind(&mut self, name: &str) -> (entry: EntryPoint)
        requires
            old(self)@.started,
        ensures
            final(self)@ == old(self)@.bind(name@),
            entry.name() == name@,
            entry.bound_in(final(self)@),
    {
        let owned = name.to_owned();
        let mut i: usize = 0;
        while i < self.names.len()
            invariant
                i <= self.names.len(),
                *self == *old(self),
                owned@ == name@,
                forall|j: int| 0 <= j < i ==> self@.bound[j] != name@,
            decreases self.names.len() - i,
        {
            if self.names[i] == owned {
                assert(self@.bound[i as int] == name@);
                return EntryPoint { index: i, name: owned };
            }
            i += 1;
        }
        let index = self.names.len();
        self.names.push(name.to_owned());
        proof {
            assert(self@.bound =~= old(self)@.bound.push(name@));
        }
        EntryPoint { index, name: owned }
    }

    /// Hands out the call of an entry point on the given arguments, for the
    /// driver to perform. The call may allocate and collect on the managed
    /// side, so every unrooted handle is no longer good afterwards; the
    /// runtime takes nothing but `accept` until the reply is in.
    pub fn invoke(&mut self, entry: &EntryPoint, args: Vec<Handle>) -> (call: Call)
        requires
            old(self)@.ready(),
            old(self)@.frames.len() > 0,
            entry.bound_in(old(self)@),
            forall|i: int| 0 <= i < args@.len() ==> (#[trigger] args@[i]).live(old(self)@),
        ensures
            final(self)@ == old(self)@.call(),
            call@ == (CallView {
                entry: entry.index(),
                name: entry.name(),
                args: handle_trees(args@),
            }),
    {
        let ghost all = args@;
        let mut values: Vec<Value> = Vec::new();
        for handle in iter: args
            invariant
                iter.seq() == all,
                values@.len() == iter.index(),
                forall|j: int| 0 <= j < iter.index() ==> #[trigger] values@[j]@ == all[j]@,
        {
            values.push(handle.value);
        }
        proof {
            lemma_trees(values@);
            assert(trees(values@) =~= handle_trees(all));
        }
        self.awaiting = true;
        self.epoch = Ghost((self.epoch@ + 1) as nat);
        Call { entry: entry.index, name: entry.name.clone(), args: values }
    }

    /// Takes the reply to the call that was handed out. A returned value
    /// comes as an unrooted handle; a failure on the managed side comes as
    /// the error that carries its description.
    pub fn accept(&mut self, reply: Reply) -> (r: Result<Handle, CallError>)
        requires
            old(self)@.awaiting,
        ensures
            final(self)@ == old(self)@.reply(),
            match reply@ {
                ReplyView::Returned(t) => r matches Ok(h) && h@ == t && h.stamp() == Some(
                    final(self)@.epoch,
                ),
                ReplyView::Raised(message) => r matches Err(e) && e@ == Failure::Failed(
                    message,
                ),
            },
    {
        let ghost epoch = (self.epoch@ + 1) as nat;
        self.awaiting = false;
        self.epoch = Ghost(epoch);
        match reply {
            Reply::Returned(value) => Ok(Handle { value, stamp: Ghost(Some(epoch)) }),
            Reply::Raised(message) => Err(CallError::Failed(message)),
        }
    }
}

// ---------------------------------------------------------------------------
// What the protocol guarantees
// ---------------------------------------------------------------------------

/// One step of the runtime: `t` is `s` after one operation that `s` allows.
pub open spec fn step(s: RuntimeState, t: RuntimeState) -> bool {
    ||| t == s.start()
    ||| s.ready() && exists|keeps: bool| t == s.open(keeps)
    ||| !s.awaiting && s.frames.len() > 0 && t == s.close()
    ||| s.ready() && s.frames.len() > 0 && t == s.allocate()
    ||| s.ready() && s.frames.len() > 0 && s.frames.last().keeps && exists|root: Tree|
        t == s.keep(root)
    ||| s.started && exists|name: Seq<char>| t == s.bind(name)
    ||| s.ready() && s.frames.len() > 0 && t == s.call()
    ||| s.awaiting && t == s.reply()
}

/// Whether the frame that held a root has closed.
pub open spec fn released(rooted: Rooted, s: RuntimeState) -> bool {
    &&& rooted.serial() < s.opened
    &&& forall|i: int| 0 <= i < s.frames.len() ==> (#[trigger] s.frames[i]).serial
        != rooted.serial()
}

/// The state of a new runtime is well formed, and every step keeps it so.
pub proof fn law_wf(s: RuntimeState, t: RuntimeState)
    requires
        s.wf(),
        step(s, t),
    ensures
        RuntimeState::initial().wf(),
        t.wf(),
{
    if s.ready() && s.frames.len() > 0 && s.frames.last().keeps && exists|root: Tree|
        t == s.keep(root) {
        let root = choose|root: Tree| t == s.keep(root);
        assert(t.frames.len() == s.frames.len());
        assert forall|i: int| 0 <= i < t.frames.len() implies (#[trigger] t.frames[i]).serial
            == s.frames[i].serial by {}
    }
    if s.started && exists|name: Seq<char>| t == s.bind(name) {
        let name = choose|name: Seq<char>| t == s.bind(name);
        if !s.bound.contains(name) {
            assert forall|i: int, j: int| 0 <= i < j < t.bound.len() implies #[trigger] t.bound[i]
                != #[trigger] t.bound[j] by {
                if j == s.bound.len() {
                    assert(s.bound.contains(s.bound[i]));
                }
            }
        }
    }
}

/// Initialization happens once: initializing a started runtime changes
/// nothing.
pub proof fn law_init_once(s: RuntimeState)
    ensures
        s.start().started,
        s.start().start() == s.start(),
        s.started ==> s.start() == s,
{
}

/// Binding is idempotent: a name is recorded by its first binding, and
/// binding it again changes nothing. No other step unbinds an entry point.
pub proof fn law_bind_once(s: RuntimeState, t: RuntimeState, name: Seq<char>, entry: EntryPoint)
    requires
        step(s, t),
        entry.bound_in(s),
    ensures
        s.bind(name).bound.contains(name),
        s.bind(name).bind(name) == s.bind(name),
        entry.bound_in(t),
{
    if !s.bound.contains(name) {
        assert(s.bound.push(name)[s.bound.len() as int] == name);
    }
}

/// A frame that is opened and closed leaves the frames around it as they
/// were, whatever was registered with it meanwhile: nothing leaks out of a
/// frame.
pub proof fn law_frames_balance(s: RuntimeState, keeps: bool, roots: Seq<Tree>)
    ensures
        s.open(keeps).close().frames == s.frames,
        keep_all(s.open(keeps), roots).close().frames == s.frames,
{
    assert(s.open(keeps).close().frames =~= s.frames);
    lemma_keep_all(s.open(keeps), roots);
    assert(keep_all(s.open(keeps), roots).close().frames =~= s.frames);
}

/// The state after each of `roots` is registered, in order, with the
/// innermost frame.
pub open spec fn keep_all(s: RuntimeState, roots: Seq<Tree>) -> RuntimeState
    decreases roots.len(),
{
    if roots.len() == 0 {
        s
    } else {
        keep_all(s, roots.drop_last()).keep(roots.last())
    }
}

/// Registering roots touches the innermost frame only, and there it appends
/// them in order.
proof fn lemma_keep_all(s: RuntimeState, roots: Seq<Tree>)
    requires
        s.frames.len() > 0,
    ensures
        keep_all(s, roots).frames.len() == s.frames.len(),
        keep_all(s, roots).frames.drop_last() == s.frames.drop_last(),
        keep_all(s, roots).frames.last().roots == s.frames.last().roots + roots,
        keep_all(s, roots).frames.last().serial == s.frames.last().serial,
        keep_all(s, roots).frames.last().keeps == s.frames.last().keeps,
    decreases roots.len(),
{
    if roots.len() == 0 {
        assert(s.frames.last().roots + roots =~= s.frames.last().roots);
    } else {
        let before = keep_all(s, roots.drop_last());
        lemma_keep_all(s, roots.drop_last());
        let after = before.keep(roots.last());
        assert(after.frames.drop_last() =~= before.frames.drop_last());
        assert(s.frames.last().roots + roots =~= (s.frames.last().roots
            + roots.drop_last()).push(roots.last()));
    }
}

/// A registered value stays good, and stays the same value, through every
/// step but the closing of its own frame or of one outside it: allocations,
/// calls and replies do not touch it, nor do frames opened and closed inside
/// its own.
pub proof fn law_rooted_survives(s: RuntimeState, t: RuntimeState, rooted: Rooted)
    requires
        step(s, t),
        rooted.live(s),
        !(t == s.close() && rooted.frame() == s.frames.len() - 1),
    ensures
        rooted.live(t),
        rooted.tree(t) == rooted.tree(s),
{
    if s.ready() && s.frames.len() > 0 && s.frames.last().keeps && exists|root: Tree|
        t == s.keep(root) {
        let root = choose|root: Tree| t == s.keep(root);
        assert(t == s.keep(root));
    }
    if s.started && exists|name: Seq<char>| t == s.bind(name) {
        let name = choose|name: Seq<char>| t == s.bind(name);
        assert(t.frames == s.frames);
    }
}

/// An unrooted handle to a value on the managed heap is good only in the
/// epoch in which it was made: any allocation, call or reply ends it.
pub proof fn law_unrooted_expires(s: RuntimeState, handle: Handle)
    requires
        handle.stamp() is Some,
        handle.live(s),
    ensures
        !handle.live(s.allocate()),
        !handle.live(s.call()),
        !handle.live(s.reply()),
{
}

/// Closing a frame releases every root registered with it, and a released
/// root is never good again, whatever steps follow.
pub proof fn law_released_for_good(s: RuntimeState, t: RuntimeState, rooted: Rooted)
    requires
        s.wf(),
        step(s, t),
    ensures
        rooted.live(s) && rooted.frame() == s.frames.len() - 1 && s.ready() ==> released(
            rooted,
            s.close(),
        ),
        released(rooted, s) ==> released(rooted, t) && !rooted.live(t),
{
    if released(rooted, s) {
        if s.ready() && s.frames.len() > 0 && s.frames.last().keeps && exists|root: Tree|
            t == s.keep(root) {
            let root = choose|root: Tree| t == s.keep(root);
            assert forall|i: int| 0 <= i < t.frames.len() implies (#[trigger] t.frames[i]).serial
                == s.frames[i].serial by {}
        }
        if s.started && exists|name: Seq<char>| t == s.bind(name) {
            let name = choose|name: Seq<char>| t == s.bind(name);
            assert(t.frames == s.frames);
        }
    }
}

} // verus!

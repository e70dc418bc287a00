//! The batch accumulator and the display list it is serialized into.
//!
//! A batch records draw commands in the order in which they are issued. At the
//! end of a frame it is turned into a display list: the same commands, lowest
//! depth first, commands of equal depth in the order of issue.

use vstd::prelude::*;
use crate::color::Color;
use crate::fixed::Fixed;
use crate::image_cache::TextureId;

verus! {

/// An axis-aligned box.
#[derive(Clone, Copy, Debug, PartialEq, Eq, Structural)]
pub struct Rect {
    pub x: Fixed,
    pub y: Fixed,
    pub width: Fixed,
    pub height: Fixed,
}

impl Rect {
    pub fn new(x: Fixed, y: Fixed, width: Fixed, height: Fixed) -> (r: Rect)
        ensures
            r == (Rect { x, y, width, height }),
    {
        Rect { x, y, width, height }
    }
}

/// The corners of a region of a texture.
#[derive(Clone, Copy, Debug, PartialEq, Eq, Structural)]
pub struct TexCoords {
    pub min_u: Fixed,
    pub min_v: Fixed,
    pub max_u: Fixed,
    pub max_v: Fixed,
}

/// One draw command.
#[derive(Clone, Copy, Debug, PartialEq, Eq, Structural)]
pub enum Command {
    /// A rectangle filled with one color.
    Rect { rect: Rect, depth: Fixed, color: Color },
    /// A region of a texture that carries its own colors.
    Image { rect: Rect, depth: Fixed, color: Color, coords: TexCoords, image: TextureId, has_alpha: bool },
    /// A region of a texture that holds coverage only, tinted by `color`.
    Mask { rect: Rect, depth: Fixed, color: Color, coords: TexCoords, image: TextureId, has_alpha: bool },
}

impl Command {
    pub open spec fn spec_depth(self) -> Fixed {
        match self {
            Command::Rect { depth, .. } => depth,
            Command::Image { depth, .. } => depth,
            Command::Mask { depth, .. } => depth,
        }
    }

    #[verifier::when_used_as_spec(spec_depth)]
    pub fn depth(self) -> (d: Fixed)
        ensures
            d == self.spec_depth(),
    {
        match self {
            Command::Rect { depth, .. } => depth,
            Command::Image { depth, .. } => depth,
            Command::Mask { depth, .. } => depth,
        }
    }
}

/// Where a command of depth `depth` goes into `s`: behind the last command
/// that is not deeper than it.
pub open spec fn insertion_index(s: Seq<Command>, depth: Fixed) -> int
    decreases s.len(),
{
    if s.len() == 0 {
        0
    } else if s.last().depth().raw <= depth.raw {
        s.len() as int
    } else {
        insertion_index(s.drop_last(), depth)
    }
}

/// `s` with `c` put in by depth.
pub open spec fn insert_by_depth(s: Seq<Command>, c: Command) -> Seq<Command> {
    s.insert(insertion_index(s, c.depth()), c)
}

/// The commands of `s`, put in one by one by depth.
pub open spec fn depth_ordered(s: Seq<Command>) -> Seq<Command>
    decreases s.len(),
{
    if s.len() == 0 {
        Seq::empty()
    } else {
        insert_by_depth(depth_ordered(s.drop_last()), s.last())
    }
}

/// No command stands before one of lower depth.
pub open spec fn sorted_by_depth(s: Seq<Command>) -> bool {
    forall|i: int, j: int| 0 <= i <= j < s.len() ==> s[i].depth().raw <= s[j].depth().raw
}

/// The insertion index lies behind every command that is not deeper than
/// `depth` would allow and before every command behind it.
pub proof fn lemma_insertion_index(s: Seq<Command>, depth: Fixed)
    ensures
        0 <= insertion_index(s, depth) <= s.len(),
        forall|k: int| insertion_index(s, depth) <= k < s.len() ==> s[k].depth().raw > depth.raw,
        insertion_index(s, depth) > 0 ==> s[insertion_index(s, depth) - 1].depth().raw
            <= depth.raw,
    decreases s.len(),
{
    if s.len() > 0 && s.last().depth().raw > depth.raw {
        let front = s.drop_last();
        lemma_insertion_index(front, depth);
        assert forall|k: int| insertion_index(s, depth) <= k < s.len() implies s[k].depth().raw
            > depth.raw by {
            if k < front.len() {
                assert(front[k] == s[k]);
            }
        }
        if insertion_index(s, depth) > 0 {
            assert(front[insertion_index(s, depth) - 1] == s[insertion_index(s, depth) - 1]);
        }
    }
}

/// Putting a command into a sorted sequence by depth leaves it sorted.
pub proof fn lemma_insert_keeps_sorted(s: Seq<Command>, c: Command)
    requires
        sorted_by_depth(s),
    ensures
        sorted_by_depth(insert_by_depth(s, c)),
{
    lemma_insertion_index(s, c.depth());
    let at = insertion_index(s, c.depth());
    let t = insert_by_depth(s, c);
    assert forall|i: int, j: int| 0 <= i <= j < t.len() implies t[i].depth().raw
        <= t[j].depth().raw by {
        if i < at {
            assert(t[i] == s[i]);
            assert(s[i].depth().raw <= s[at - 1].depth().raw);
        } else if i > at {
            assert(t[i] == s[i - 1]);
        }
        if j < at {
            assert(t[j] == s[j]);
        } else if j > at {
            assert(t[j] == s[j - 1]);
        }
    }
}

/// A display order is sorted by depth.
pub proof fn lemma_depth_ordered_is_sorted(s: Seq<Command>)
    ensures
        sorted_by_depth(depth_ordered(s)),
    decreases s.len(),
{
    if s.len() > 0 {
        lemma_depth_ordered_is_sorted(s.drop_last());
        lemma_insert_keeps_sorted(depth_ordered(s.drop_last()), s.last());
    }
}

/// A display order holds the commands it was made from, each as often as it
/// was issued.
pub proof fn lemma_depth_ordered_is_permutation(s: Seq<Command>)
    ensures
        depth_ordered(s).len() == s.len(),
        depth_ordered(s).to_multiset() == s.to_multiset(),
    decreases s.len(),
{
    if s.len() == 0 {
        assert(s =~= depth_ordered(s));
    } else {
        let front = s.drop_last();
        lemma_depth_ordered_is_permutation(front);
        lemma_insertion_index(depth_ordered(front), s.last().depth());
        vstd::seq_lib::to_multiset_insert(
            depth_ordered(front),
            insertion_index(depth_ordered(front), s.last().depth()),
            s.last(),
        );
        vstd::seq_lib::to_multiset_build(front, s.last());
        assert(front.push(s.last()) =~= s);
    }
}

/// The commands of `s` that lie at `depth`, in the order in which they stand
/// in `s`.
pub open spec fn at_depth(s: Seq<Command>, depth: Fixed) -> Seq<Command>
    decreases s.len(),
{
    if s.len() == 0 {
        Seq::empty()
    } else if s.last().depth() == depth {
        at_depth(s.drop_last(), depth).push(s.last())
    } else {
        at_depth(s.drop_last(), depth)
    }
}

/// The commands at one depth of two sequences in a row are those of the first
/// and then those of the second.
pub proof fn lemma_at_depth_concat(a: Seq<Command>, b: Seq<Command>, depth: Fixed)
    ensures
        at_depth(a + b, depth) == at_depth(a, depth) + at_depth(b, depth),
    decreases b.len(),
{
    if b.len() == 0 {
        assert(a + b =~= a);
        assert(at_depth(a, depth) + at_depth(b, depth) =~= at_depth(a, depth));
    } else {
        lemma_at_depth_concat(a, b.drop_last(), depth);
        assert((a + b).drop_last() =~= a + b.drop_last());
        assert((a + b).last() == b.last());
        if b.last().depth() == depth {
            assert((at_depth(a, depth) + at_depth(b.drop_last(), depth)).push(b.last())
                =~= at_depth(a, depth) + at_depth(b.drop_last(), depth).push(b.last()));
        }
    }
}

/// Where no command lies at `depth`, there are none to pick.
pub proof fn lemma_at_depth_of_others(s: Seq<Command>, depth: Fixed)
    requires
        forall|k: int| 0 <= k < s.len() ==> s[k].depth() != depth,
    ensures
        at_depth(s, depth) == Seq::<Command>::empty(),
    decreases s.len(),
{
    if s.len() > 0 {
        assert forall|k: int| 0 <= k < s.drop_last().len() implies s.drop_last()[k].depth()
            != depth by {
            assert(s.drop_last()[k] == s[k]);
        }
        lemma_at_depth_of_others(s.drop_last(), depth);
    }
}

/// Putting a command in by depth puts it behind the commands of its own
/// depth, and leaves the commands of every depth in their order.
pub proof fn lemma_insert_is_stable(s: Seq<Command>, c: Command, depth: Fixed)
    ensures
        at_depth(insert_by_depth(s, c), depth) == if c.depth() == depth {
            at_depth(s, depth).push(c)
        } else {
            at_depth(s, depth)
        },
{
    lemma_insertion_index(s, c.depth());
    let at = insertion_index(s, c.depth());
    let head = s.take(at);
    let tail = s.skip(at);
    let one = seq![c];
    assert(s =~= head + tail);
    assert(insert_by_depth(s, c) =~= (head + one) + tail);
    lemma_at_depth_concat(head, tail, depth);
    lemma_at_depth_concat(head + one, tail, depth);
    lemma_at_depth_concat(head, one, depth);
    assert(one.drop_last() =~= Seq::<Command>::empty());
    assert(one.last() == c);
    assert(at_depth(one.drop_last(), depth) =~= Seq::<Command>::empty());
    if c.depth() == depth {
        assert forall|k: int| 0 <= k < tail.len() implies tail[k].depth() != depth by {
            assert(tail[k] == s[at + k]);
        }
        lemma_at_depth_of_others(tail, depth);
        assert(at_depth(one, depth) =~= seq![c]);
        assert(at_depth(head, depth) + seq![c] + Seq::<Command>::empty() =~= (at_depth(
            head,
            depth,
        ) + Seq::<Command>::empty()).push(c));
    } else {
        assert(at_depth(one, depth) =~= Seq::<Command>::empty());
        assert(at_depth(head, depth) + Seq::<Command>::empty() + at_depth(tail, depth)
            =~= at_depth(head, depth) + at_depth(tail, depth));
    }
}

/// A display order keeps the commands of every depth in the order of issue.
pub proof fn lemma_depth_ordered_is_stable(s: Seq<Command>, depth: Fixed)
    ensures
        at_depth(depth_ordered(s), depth) == at_depth(s, depth),
    decreases s.len(),
{
    if s.len() > 0 {
        lemma_depth_ordered_is_stable(s.drop_last(), depth);
        lemma_insert_is_stable(depth_ordered(s.drop_last()), s.last(), depth);
    }
}

/// A batch without commands gives a display list without commands.
pub proof fn lemma_empty_batch_orders_to_nothing()
    ensures
        depth_ordered(Seq::<Command>::empty()) == Seq::<Command>::empty(),
{
}

/// The depth-ordered commands of one frame.
pub struct DisplayList {
    commands: Vec<Command>,
}

impl View for DisplayList {
    type V = Seq<Command>;

    closed spec fn view(&self) -> Seq<Command> {
        self.commands@
    }
}

impl DisplayList {
    pub fn new() -> (list: DisplayList)
        ensures
            list@ == Seq::<Command>::empty(),
    {
        DisplayList { commands: Vec::new() }
    }

    pub fn len(&self) -> (n: usize)
        ensures
            n == self@.len(),
    {
        self.commands.len()
    }

    pub fn get(&self, i: usize) -> (c: Option<Command>)
        ensures
            c == if i < self@.len() {
                Some(self@[i as int])
            } else {
                None
            },
    {
        if i < self.commands.len() {
            Some(self.commands[i])
        } else {
            None
        }
    }
}

/// The commands issued since the last reset, in the order of issue.
pub struct BatchManager {
    commands: Vec<Command>,
}

impl View for BatchManager {
    type V = Seq<Command>;

    closed spec fn view(&self) -> Seq<Command> {
        self.commands@
    }
}

fn insertion_point(v: &Vec<Command>, depth: Fixed) -> (at: usize)
    ensures
        at == insertion_index(v@, depth),
        at <= v.len(),
{
    let mut j: usize = v.len();
    assert(v@.take(j as int) == v@);
    while j > 0 && v[j - 1].depth().raw > depth.raw
        invariant
            j <= v.len(),
            insertion_index(v@, depth) == insertion_index(v@.take(j as int), depth),
        decreases j,
    {
        assert(v@.take(j as int).drop_last() == v@.take(j - 1));
        j -= 1;
    }
    proof {
        assert(v@.take(v.len() as int) == v@);
        if j > 0 {
            assert(v@.take(j as int).last() == v@[j - 1]);
        }
    }
    j
}

impl BatchManager {
    pub fn new() -> (batch: BatchManager)
        ensures
            batch@ == Seq::<Command>::empty(),
    {
        BatchManager { commands: Vec::new() }
    }

    /// Forgets every command.
    pub fn reset(&mut self)
        ensures
            final(self)@ == Seq::<Command>::empty(),
    {
        self.commands.clear();
    }

    pub fn len(&self) -> (n: usize)
        ensures
            n == self@.len(),
    {
        self.commands.len()
    }

    pub fn get(&self, i: usize) -> (c: Option<Command>)
        ensures
            c == if i < self@.len() {
                Some(self@[i as int])
            } else {
                None
            },
    {
        if i < self.commands.len() {
            Some(self.commands[i])
        } else {
            None
        }
    }

    /// Issues a rectangle filled with `color`.
    pub fn add_rect(&mut self, rect: &Rect, depth: Fixed, color: &Color)
        ensures
            final(self)@ == old(self)@.push(Command::Rect { rect: *rect, depth, color: *color }),
    {
        self.commands.push(Command::Rect { rect: *rect, depth, color: *color });
    }

    /// Issues a region of a texture that carries its own colors.
    pub fn add_image_rect(
        &mut self,
        rect: &Rect,
        depth: Fixed,
        color: &Color,
        coords: &TexCoords,
        image: TextureId,
        has_alpha: bool,
    )
        ensures
            final(self)@ == old(self)@.push(
                Command::Image { rect: *rect, depth, color: *color, coords: *coords, image, has_alpha },
            ),
    {
        self.commands.push(
            Command::Image { rect: *rect, depth, color: *color, coords: *coords, image, has_alpha },
        );
    }

    /// Issues a region of a texture that holds coverage only.
    pub fn add_mask_rect(
        &mut self,
        rect: &Rect,
        depth: Fixed,
        color: &Color,
        coords: &TexCoords,
        image: TextureId,
        has_alpha: bool,
    )
        ensures
            final(self)@ == old(self)@.push(
                Command::Mask { rect: *rect, depth, color: *color, coords: *coords, image, has_alpha },
            ),
    {
        self.commands.push(
            Command::Mask { rect: *rect, depth, color: *color, coords: *coords, image, has_alpha },
        );
    }

    /// Writes the commands into `list`, lowest depth first and commands of
    /// equal depth in the order of issue, and leaves the batch empty.
    pub fn build_display_list(&mut self, list: &mut DisplayList)
        ensures
            final(list)@ == depth_ordered(old(self)@),
            sorted_by_depth(final(list)@),
            final(list)@.to_multiset() == old(self)@.to_multiset(),
            forall|depth: Fixed| #[trigger]
                at_depth(final(list)@, depth) == at_depth(old(self)@, depth),
            final(self)@ == Seq::<Command>::empty(),
    {
        let mut out: Vec<Command> = Vec::new();
        let n: usize = self.commands.len();
        let mut i: usize = 0;
        while i < n
            invariant
                i <= n,
                n == self.commands.len(),
                self.commands@ == old(self).commands@,
                out@ == depth_ordered(self.commands@.take(i as int)),
            decreases n - i,
        {
            let c: Command = self.commands[i];
            let at: usize = insertion_point(&out, c.depth());
            out.insert(at, c);
            proof {
                let next = self.commands@.take(i + 1);
                assert(next.drop_last() == self.commands@.take(i as int));
                assert(next.last() == c);
            }
            i += 1;
        }
        proof {
            assert(self.commands@.take(n as int) == self.commands@);
            lemma_depth_ordered_is_sorted(self.commands@);
            lemma_depth_ordered_is_permutation(self.commands@);
            assert forall|depth: Fixed| #[trigger]
                at_depth(out@, depth) == at_depth(self.commands@, depth) by {
                lemma_depth_ordered_is_stable(self.commands@, depth);
            }
        }
        list.commands = out;
        self.commands.clear();
    }
}

} // verus!

use vstd::prelude::*;

verus! {

#[verifier::external_type_specification]
#[verifier::external_body]
pub struct ExAtlasAllocator(guillotiere::AtlasAllocator);

pub open spec fn disjoint(a: (int, int, int, int), b: (int, int, int, int)) -> bool {
    a.0 + a.2 <= b.0 || b.0 + b.2 <= a.0 || a.1 + a.3 <= b.1 || b.1 + b.3 <= a.1
}

/// `a`, as `(x, y, width, height)`, is non-empty and lies inside a square surface of side
/// `side`.
pub open spec fn inside(a: (int, int, int, int), side: int) -> bool {
    &&& 0 < a.2 && 0 < a.3
    &&& 0 <= a.0 && a.0 + a.2 <= side
    &&& 0 <= a.1 && a.1 + a.3 <= side
}

/// The rectangles, as `(x, y, width, height)`, that an allocator has handed out.
pub uninterp spec fn packed(p: guillotiere::AtlasAllocator) -> Set<(int, int, int, int)>;

/// Where `guillotiere::AtlasAllocator::allocate` puts a `width` by `height` rectangle, as
/// `(x, y)`, in an allocator made over a `side` by `side` surface and asked before for the sizes
/// `earlier`, in order; `None` where it finds no room.
pub uninterp spec fn placement(side: u32, earlier: Seq<(u32, u32)>, width: u32, height: u32) -> Option<
    (u32, u32),
>;

/// A rectangle packer over a square surface, with every size it was asked for so far.
pub struct Packer {
    alloc: guillotiere::AtlasAllocator,
    side: u32,
    asked: Ghost<Seq<(u32, u32)>>,
}

/// Relies on guillotiere::AtlasAllocator::new: an allocator over a `side` by `side` surface
/// with nothing handed out (it panics on a side that is not positive).
#[verifier::external_body]
fn new_allocator(side: u32) -> (p: guillotiere::AtlasAllocator)
    requires
        0 < side <= i32::MAX,
    ensures
        packed(p) == Set::<(int, int, int, int)>::empty(),
{
    guillotiere::AtlasAllocator::new(guillotiere::size2(side as i32, side as i32))
}

/// Relies on guillotiere::AtlasAllocator::allocate. Its answer is decided by the allocator's
/// state, which is decided by the side it was made with and the sizes asked since; those are
/// `packer.side` and `packer.asked`: only this function, `new_allocator` and the methods of
/// `Packer`, which record each size, touch the allocator. `None` for an empty size; otherwise
/// either a rectangle of exactly the size asked for (the default alignment is one pixel) inside
/// the surface and overlapping none handed out before, or `None` where no free space fits, with
/// nothing handed out.
#[verifier::external_body]
fn allocate(packer: &mut Packer, width: u32, height: u32) -> (r: Option<(u32, u32)>)
    requires
        width <= i32::MAX,
        height <= i32::MAX,
    ensures
        r == placement(old(packer).side, old(packer).asked@, width, height),
        final(packer).side == old(packer).side,
        final(packer).asked == old(packer).asked,
        width == 0 || height == 0 ==> r is None,
        r is None ==> packed(final(packer).alloc) == packed(old(packer).alloc),
        r matches Some(pos) ==> {
            let rect = (pos.0 as int, pos.1 as int, width as int, height as int);
            &&& pos.0 + width <= old(packer).side
            &&& pos.1 + height <= old(packer).side
            &&& forall|q: (int, int, int, int)| #[trigger]
                packed(old(packer).alloc).contains(q) ==> disjoint(q, rect)
            &&& packed(final(packer).alloc) == packed(old(packer).alloc).insert(rect)
        },
{
    packer.alloc.allocate(guillotiere::size2(width as i32, height as i32)).map(
        |a| (a.rectangle.min.x as u32, a.rectangle.min.y as u32),
    )
}

impl Packer {
    pub closed spec fn side(&self) -> u32 {
        self.side
    }

    /// The rectangles handed out, as `(x, y, width, height)`.
    pub closed spec fn handed_out(&self) -> Set<(int, int, int, int)> {
        packed(self.alloc)
    }

    /// Every size asked for since the packer was made, in order.
    pub closed spec fn asked(&self) -> Seq<(u32, u32)> {
        self.asked@
    }

    /// A packer over a `side` by `side` surface with nothing handed out.
    pub fn new(side: u32) -> (p: Packer)
        requires
            0 < side <= i32::MAX,
        ensures
            p.side() == side,
            p.handed_out() == Set::<(int, int, int, int)>::empty(),
            p.asked() == Seq::<(u32, u32)>::empty(),
    {
        Packer { alloc: new_allocator(side), side, asked: Ghost(Seq::empty()) }
    }

    /// Places a `width` by `height` rectangle, as `(x, y)`, where there is room.
    pub fn allocate(&mut self, width: u32, height: u32) -> (r: Option<(u32, u32)>)
        requires
            width <= i32::MAX,
            height <= i32::MAX,
        ensures
            r == placement(old(self).side(), old(self).asked(), width, height),
            final(self).side() == old(self).side(),
            final(self).asked() == old(self).asked().push((width, height)),
            width == 0 || height == 0 ==> r is None,
            r is None ==> final(self).handed_out() == old(self).handed_out(),
            r matches Some(pos) ==> {
                let rect = (pos.0 as int, pos.1 as int, width as int, height as int);
                &&& pos.0 + width <= old(self).side()
                &&& pos.1 + height <= old(self).side()
                &&& forall|q: (int, int, int, int)| #[trigger]
                    old(self).handed_out().contains(q) ==> disjoint(q, rect)
                &&& final(self).handed_out() == old(self).handed_out().insert(rect)
            },
    {
        let r = allocate(self, width, height);
        self.asked = Ghost(self.asked@.push((width, height)));
        r
    }
}

} // verus!

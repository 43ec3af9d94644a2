//! Connected regions of a picture, found by flood fill.

use vstd::prelude::*;
use crate::analyze::logo::model::Rect;
use crate::media::frames::offset_of;
use crate::media::frames::offsets_differ;
use crate::media::frames::offsets_fit;
use crate::media::frames::pixel_offset;

verus! {

/// A pixel, by column and row.
pub type Pixel = (int, int);

/// A picture of which some pixels stand out: those with at least the required
/// number of votes.
pub ghost struct Standout {
    /// Width in pixels.
    pub width: int,
    /// Height in pixels.
    pub height: int,
    /// Votes for each pixel, row-major.
    pub votes: Seq<u16>,
    /// Votes a pixel needs to stand out.
    pub required: u16,
}

/// Two pixels share an edge.
pub open spec fn adjacent(p: Pixel, q: Pixel) -> bool {
    ||| p.1 == q.1 && (p.0 == q.0 + 1 || q.0 == p.0 + 1)
    ||| p.0 == q.0 && (p.1 == q.1 + 1 || q.1 == p.1 + 1)
}

impl Standout {
    /// There is a vote for every pixel.
    pub open spec fn wf(self) -> bool {
        &&& self.width >= 0
        &&& self.height >= 0
        &&& self.votes.len() == self.width * self.height
    }

    /// The pixel lies in the picture.
    pub open spec fn holds(self, p: Pixel) -> bool {
        0 <= p.0 < self.width && 0 <= p.1 < self.height
    }

    /// The pixel's place in the list of votes.
    pub open spec fn offset(self, p: Pixel) -> int {
        offset_of(p.0, p.1, self.width)
    }

    /// The pixel stands out.
    pub open spec fn lit(self, p: Pixel) -> bool {
        self.holds(p) && self.votes[self.offset(p)] >= self.required
    }

    /// A walk over pixels that stand out, each sharing an edge with the next.
    pub open spec fn is_route(self, route: Seq<Pixel>) -> bool {
        &&& route.len() >= 1
        &&& forall|i: int| 0 <= i < route.len() ==> self.lit(#[trigger] route[i])
        &&& forall|i: int| 0 <= i < route.len() - 1 ==> #[trigger] joins(route, i)
    }

    /// Two pixels belong to the same region.
    pub open spec fn connected(self, p: Pixel, q: Pixel) -> bool {
        exists|route: Seq<Pixel>| #[trigger]
            self.is_route(route) && route[0] == p && route.last() == q
    }

    /// The region a pixel belongs to.
    pub open spec fn region(self, p: Pixel) -> Set<Pixel> {
        Set::new(|q: Pixel| self.connected(p, q))
    }

    /// A set of pixels that no step from one that stands out leaves.
    pub open spec fn closed_under_steps(self, inside: Set<Pixel>) -> bool {
        forall|p: Pixel, q: Pixel|
            inside.contains(p) && self.lit(p) && self.lit(q) && #[trigger] adjacent(p, q)
                ==> inside.contains(q)
    }

    /// A pixel that stands out belongs to its own region.
    pub proof fn connected_to_itself(self, p: Pixel)
        requires
            self.lit(p),
        ensures
            self.connected(p, p),
    {
        let route = seq![p];
        assert(self.is_route(route));
    }

    /// A step further stays in the region.
    pub proof fn one_step_further(self, p: Pixel, q: Pixel, next: Pixel)
        requires
            self.connected(p, q),
            self.lit(next),
            adjacent(q, next),
        ensures
            self.connected(p, next),
    {
        let route = choose|route: Seq<Pixel>| #[trigger]
            self.is_route(route) && route[0] == p && route.last() == q;
        let longer = route.push(next);
        assert forall|i: int| 0 <= i < longer.len() implies self.lit(#[trigger] longer[i]) by {
            if i < route.len() {
                assert(longer[i] == route[i]);
            }
        }
        assert forall|i: int| 0 <= i < longer.len() - 1 implies #[trigger] joins(longer, i) by {
            if i < route.len() - 1 {
                assert(joins(route, i));
            }
        }
        assert(self.is_route(longer));
        assert(longer.last() == next);
    }

    /// Everything connected to a pixel of a set closed under steps is in it.
    pub proof fn connected_stays_inside(self, inside: Set<Pixel>, p: Pixel, q: Pixel)
        requires
            self.closed_under_steps(inside),
            inside.contains(p),
            self.connected(p, q),
        ensures
            inside.contains(q),
    {
        let route = choose|route: Seq<Pixel>| #[trigger]
            self.is_route(route) && route[0] == p && route.last() == q;
        self.route_stays_inside(inside, route, route.len() - 1);
    }

    proof fn route_stays_inside(self, inside: Set<Pixel>, route: Seq<Pixel>, i: int)
        requires
            self.closed_under_steps(inside),
            self.is_route(route),
            inside.contains(route[0]),
            0 <= i < route.len(),
        ensures
            inside.contains(route[i]),
        decreases i,
    {
        if i > 0 {
            self.route_stays_inside(inside, route, i - 1);
            assert(joins(route, i - 1));
            assert(self.lit(route[i - 1]));
            assert(self.lit(route[i]));
        }
    }

    /// Being in the same region is mutual.
    pub proof fn connected_both_ways(self, p: Pixel, q: Pixel)
        requires
            self.connected(p, q),
        ensures
            self.connected(q, p),
    {
        let route = choose|route: Seq<Pixel>| #[trigger]
            self.is_route(route) && route[0] == p && route.last() == q;
        let back = route.reverse();
        assert forall|i: int| 0 <= i < back.len() implies self.lit(#[trigger] back[i]) by {
            assert(self.lit(route[route.len() - 1 - i]));
        }
        assert forall|i: int| 0 <= i < back.len() - 1 implies #[trigger] joins(back, i) by {
            assert(joins(route, route.len() - 2 - i));
        }
        assert(self.is_route(back));
        assert(back[0] == q);
        assert(back.last() == p);
    }

    /// Both ends of a connection stand out.
    pub proof fn connected_stand_out(self, p: Pixel, q: Pixel)
        requires
            self.connected(p, q),
        ensures
            self.lit(p),
            self.lit(q),
    {
        let route = choose|route: Seq<Pixel>| #[trigger]
            self.is_route(route) && route[0] == p && route.last() == q;
        assert(self.lit(route[0]));
        assert(self.lit(route[route.len() - 1]));
    }

    /// A region is closed under steps.
    pub proof fn regions_are_closed(self, p: Pixel)
        ensures
            self.closed_under_steps(self.region(p)),
    {
        assert forall|q: Pixel, next: Pixel|
            self.region(p).contains(q) && self.lit(q) && self.lit(next) && #[trigger] adjacent(
                q,
                next,
            ) implies self.region(p).contains(next) by {
            self.one_step_further(p, q, next);
        }
    }
}

/// Step `i` of a route shares an edge.
pub open spec fn joins(route: Seq<Pixel>, i: int) -> bool {
    adjacent(route[i], route[i + 1])
}

/// A rectangle holds every pixel of a set and no more than it must: each of
/// its four edges touches one.
pub open spec fn encloses(pixels: Set<Pixel>, rect: Rect) -> bool {
    &&& forall|p: Pixel| #[trigger]
        pixels.contains(p) ==> rect.x <= p.0 < rect.x + rect.width && rect.y <= p.1 < rect.y
            + rect.height
    &&& exists|p: Pixel| #[trigger] pixels.contains(p) && p.0 == rect.x
    &&& exists|p: Pixel| #[trigger] pixels.contains(p) && p.0 == rect.x + rect.width - 1
    &&& exists|p: Pixel| #[trigger] pixels.contains(p) && p.1 == rect.y
    &&& exists|p: Pixel| #[trigger] pixels.contains(p) && p.1 == rect.y + rect.height - 1
}

/// The bounding box of a set of pixels.
pub open spec fn box_of(pixels: Set<Pixel>) -> Rect {
    choose|rect: Rect| encloses(pixels, rect)
}

/// A set of pixels has only one bounding box.
pub proof fn box_is_unique(pixels: Set<Pixel>, left: Rect, right: Rect)
    requires
        encloses(pixels, left),
        encloses(pixels, right),
    ensures
        left == right,
{
    assert(left.x == right.x);
    assert(left.y == right.y);
    assert(left.x + left.width == right.x + right.width);
    assert(left.y + left.height == right.y + right.height);
}

/// The pixels a mask of visits covers.
pub open spec fn visited_pixels(picture: Standout, visited: Seq<bool>) -> Set<Pixel> {
    Set::new(|p: Pixel| picture.holds(p) && visited[picture.offset(p)])
}

/// How many places have not been visited.
pub open spec fn unvisited(visited: Seq<bool>) -> nat
    decreases visited.len(),
{
    if visited.len() == 0 {
        0
    } else {
        unvisited(visited.drop_last()) + if visited.last() {
            0nat
        } else {
            1
        }
    }
}

proof fn unvisited_at_most(visited: Seq<bool>)
    ensures
        unvisited(visited) <= visited.len(),
    decreases visited.len(),
{
    if visited.len() > 0 {
        unvisited_at_most(visited.drop_last());
    }
}

/// A first visit leaves one fewer.
proof fn a_visit_counts(visited: Seq<bool>, index: int)
    requires
        0 <= index < visited.len(),
        !visited[index],
    ensures
        unvisited(visited.update(index, true)) + 1 == unvisited(visited),
    decreases visited.len(),
{
    let after = visited.update(index, true);
    if index == visited.len() - 1 {
        assert(after.drop_last() =~= visited.drop_last());
    } else {
        a_visit_counts(visited.drop_last(), index);
        assert(after.drop_last() =~= visited.drop_last().update(index, true));
    }
}

/// A visit to one pixel adds that pixel and no other.
proof fn a_visit_adds_one(picture: Standout, visited: Seq<bool>, p: Pixel)
    requires
        picture.wf(),
        visited.len() == picture.votes.len(),
        picture.holds(p),
    ensures
        0 <= picture.offset(p) < visited.len(),
        visited_pixels(picture, visited.update(picture.offset(p), true)) == visited_pixels(
            picture,
            visited,
        ).insert(p),
{
    offsets_fit(p.0, p.1, picture.width, picture.height);
    let after = visited.update(picture.offset(p), true);
    let left = visited_pixels(picture, after);
    let right = visited_pixels(picture, visited).insert(p);
    assert forall|q: Pixel| left.contains(q) <==> right.contains(q) by {
        if picture.holds(q) {
            offsets_fit(q.0, q.1, picture.width, picture.height);
            if picture.offset(q) == picture.offset(p) {
                offsets_differ(q.0, q.1, p.0, p.1, picture.width);
                assert(q == p);
            }
        }
    }
    assert(left =~= right);
}

/// Flood-fill the region of a pixel that stands out, returning its size and
/// bounding box and marking it visited.
///
/// The fill is an explicit stack rather than recursion: a region spanning a
/// large frame would otherwise be deep enough to overflow it.
pub fn flood(
    votes: &[u16],
    width: u32,
    height: u32,
    required: u16,
    visited: &mut Vec<bool>,
    start_x: u32,
    start_y: u32,
) -> (blob: (u64, Rect))
    requires
        votes@.len() == width * height,
        old(visited)@.len() == votes@.len(),
        ({
            let picture = Standout {
                width: width as int,
                height: height as int,
                votes: votes@,
                required,
            };
            let start = (start_x as int, start_y as int);
            &&& picture.lit(start)
            &&& !old(visited)@[picture.offset(start)]
            &&& picture.closed_under_steps(visited_pixels(picture, old(visited)@))
        }),
    ensures
        final(visited)@.len() == old(visited)@.len(),
        ({
            let picture = Standout {
                width: width as int,
                height: height as int,
                votes: votes@,
                required,
            };
            let start = (start_x as int, start_y as int);
            let seen = visited_pixels(picture, final(visited)@);
            &&& blob.0 == picture.region(start).len()
            &&& blob.0 <= votes@.len()
            &&& blob.1 == box_of(picture.region(start))
            &&& blob.1.fits(width as int, height as int)
            &&& blob.1.width > 0 && blob.1.height > 0
            &&& visited_pixels(picture, old(visited)@).subset_of(seen)
            &&& picture.closed_under_steps(seen)
            &&& forall|p: Pixel|
                picture.lit(p) && #[trigger] seen.contains(p) ==> visited_pixels(
                    picture,
                    old(visited)@,
                ).contains(p) || picture.connected(start, p)
            &&& seen.contains(start)
        }),
{
    let ghost picture = Standout {
        width: width as int,
        height: height as int,
        votes: votes@,
        required,
    };
    let ghost start: Pixel = (start_x as int, start_y as int);
    let ghost already = visited_pixels(picture, visited@);
    let ghost mut filled: Set<Pixel> = Set::empty();
    let mut stack: Vec<(u32, u32)> = Vec::new();
    stack.push((start_x, start_y));
    let (mut min_x, mut max_x): (u32, u32) = (start_x, start_x);
    let (mut min_y, mut max_y): (u32, u32) = (start_y, start_y);
    let mut area: u64 = 0;
    proof {
        picture.connected_to_itself(start);
        assert(already == visited_pixels(picture, visited@));
        unvisited_at_most(visited@);
        assert(to_pixel(stack@[0]) == start);
    }
    while stack.len() > 0
        invariant
            votes@.len() == width * height,
            visited@.len() == votes@.len(),
            picture == (Standout {
                width: width as int,
                height: height as int,
                votes: votes@,
                required,
            }),
            start == (start_x as int, start_y as int),
            picture.lit(start),
            already == visited_pixels(picture, old(visited)@),
            picture.closed_under_steps(already),
            !already.contains(start),
            min_x <= start_x <= max_x < width,
            min_y <= start_y <= max_y < height,
            // What has been filled: part of the region, and nothing seen before.
            filled.finite(),
            area == filled.len(),
            area + unvisited(visited@) <= visited@.len(),
            forall|p: Pixel| #[trigger]
                filled.contains(p) ==> picture.connected(start, p) && !already.contains(p)
                    && min_x <= p.0 <= max_x && min_y <= p.1 <= max_y,
            forall|p: Pixel| #[trigger]
                visited_pixels(picture, visited@).contains(p) && picture.lit(p)
                    ==> already.contains(p) || filled.contains(p),
            already.subset_of(visited_pixels(picture, visited@)),
            filled.subset_of(visited_pixels(picture, visited@)),
            // What is still to do: everything next to what has been filled.
            forall|k: int|
                0 <= k < stack@.len() ==> 0 <= (#[trigger] stack@[k]).0 < width && stack@[k].1
                    < height && (picture.lit(to_pixel(stack@[k])) ==> picture.connected(
                    start,
                    to_pixel(stack@[k]),
                )),
            forall|p: Pixel, q: Pixel|
                filled.contains(p) && picture.lit(q) && #[trigger] adjacent(p, q)
                    ==> filled.contains(q) || on_stack(stack@, q),
            filled.contains(start) || on_stack(stack@, start),
            // The bounds are those of pixels filled.
            filled.len() > 0 ==> touches(filled, min_x as int, max_x as int, min_y as int, max_y as int),
            filled.len() == 0 ==> min_x == start_x && max_x == start_x && min_y == start_y
                && max_y == start_y && stack@.len() == 1 && filled == Set::<Pixel>::empty(),
        decreases unvisited(visited@), stack@.len(),
    {
        let ghost stack_before = stack@;
        let (x, y): (u32, u32) = match stack.pop() {
            Some(top) => top,
            None => {
                return (0, Rect { x: 0, y: 0, width: 0, height: 0 });
            },
        };
        let ghost here: Pixel = (x as int, y as int);
        assert(stack_before.last() == (x, y));
        assert(stack_before[stack_before.len() - 1] == (x, y));
        assert(here == to_pixel(stack_before[stack_before.len() - 1]));
        proof {
            offsets_fit(x as int, y as int, width as int, height as int);
        }
        let offset: u64 = pixel_offset(x, y, width);
        assert(offset < votes.len());
        let index: usize = offset as usize;
        assert forall|q: Pixel| on_stack(stack_before, q) && q != here implies on_stack(
            stack@,
            q,
        ) by {
            let k = choose|k: int|
                0 <= k < stack_before.len() && to_pixel(#[trigger] stack_before[k]) == q;
            assert(stack@[k] == stack_before[k]);
        }
        if visited[index] {
            proof {
                assert(visited_pixels(picture, visited@).contains(here));
                if picture.lit(here) && !filled.contains(here) {
                    // It was seen before, but then so was the start.
                    assert(already.contains(here));
                    picture.connected_both_ways(start, here);
                    picture.connected_stays_inside(already, here, start);
                }
                if filled.len() == 0 {
                    assert(here == start);
                }
            }
            continue;
        }
        proof {
            a_visit_counts(visited@, index as int);
            a_visit_adds_one(picture, visited@, here);
        }
        let ghost visited_before = visited@;
        visited.set(index, true);
        if votes[index] < required {
            proof {
                assert(!picture.lit(here));
                if filled.len() == 0 {
                    assert(here == start);
                }
            }
            continue;
        }
        assert(picture.lit(here));
        let ghost filled_before = filled;
        proof {
            assert(!visited_pixels(picture, visited_before).contains(here));
            assert(!filled_before.contains(here));
            filled = filled.insert(here);
        }
        area += 1;
        if x < min_x {
            min_x = x;
        }
        if x > max_x {
            max_x = x;
        }
        if y < min_y {
            min_y = y;
        }
        if y > max_y {
            max_y = y;
        }
        proof {
            touching_grows(
                filled_before,
                here,
                min_x as int,
                max_x as int,
                min_y as int,
                max_y as int,
            );
        }
        // Four-connectivity: a logo's strokes are contiguous, and eight would
        // bridge across the gaps between separate glyphs.
        let ghost popped = stack@;
        if x > 0 {
            proof {
                pushing_adds(stack@, ((x - 1) as u32, y));
            }
            stack.push((x - 1, y));
        }
        if x + 1 < width {
            proof {
                pushing_adds(stack@, ((x + 1) as u32, y));
            }
            stack.push((x + 1, y));
        }
        if y > 0 {
            proof {
                pushing_adds(stack@, (x, (y - 1) as u32));
            }
            stack.push((x, y - 1));
        }
        if y + 1 < height {
            proof {
                pushing_adds(stack@, (x, (y + 1) as u32));
            }
            stack.push((x, y + 1));
        }
        proof {
            assert forall|k: int| 0 <= k < stack@.len() implies 0 <= (#[trigger] stack@[k]).0
                < width && stack@[k].1 < height && (picture.lit(to_pixel(stack@[k]))
                ==> picture.connected(start, to_pixel(stack@[k]))) by {
                if k < popped.len() {
                    assert(stack@[k] == popped[k]);
                    assert(popped[k] == stack_before[k]);
                } else {
                    let q = to_pixel(stack@[k]);
                    assert(adjacent(here, q));
                    if picture.lit(q) {
                        picture.one_step_further(start, here, q);
                    }
                }
            }
            assert forall|q: Pixel| on_stack(popped, q) implies on_stack(stack@, q) by {
                let k = choose|k: int| 0 <= k < popped.len() && to_pixel(#[trigger] popped[k]) == q;
                assert(stack@[k] == popped[k]);
            }
            assert forall|q: Pixel| picture.lit(q) && #[trigger] adjacent(here, q) implies on_stack(
                stack@,
                q,
            ) by {
                pushed_neighbours(popped, stack@, picture, here, q);
            }
            assert forall|p: Pixel, q: Pixel|
                filled.contains(p) && picture.lit(q) && #[trigger] adjacent(
                    p,
                    q,
                ) implies filled.contains(q) || on_stack(stack@, q) by {
                if p == here {
                    assert(on_stack(stack@, q));
                } else {
                    assert(filled_before.contains(p));
                    if q != here {
                        assert(filled_before.contains(q) || on_stack(stack_before, q));
                    }
                }
            }
        }
    }
    let rect = Rect {
        x: min_x,
        y: min_y,
        width: max_x - min_x + 1,
        height: max_y - min_y + 1,
    };
    proof {
        let region = picture.region(start);
        assert(filled.contains(start));
        assert(picture.closed_under_steps(filled)) by {
            assert forall|p: Pixel, q: Pixel|
                filled.contains(p) && picture.lit(p) && picture.lit(q) && #[trigger] adjacent(
                    p,
                    q,
                ) implies filled.contains(q) by {
                assert(!on_stack(stack@, q));
            }
        }
        assert forall|p: Pixel| filled.contains(p) <==> region.contains(p) by {
            if region.contains(p) {
                picture.connected_stays_inside(filled, start, p);
            }
        }
        assert(filled =~= region);
        let seen = visited_pixels(picture, visited@);
        assert forall|p: Pixel, q: Pixel|
            seen.contains(p) && picture.lit(p) && picture.lit(q) && #[trigger] adjacent(
                p,
                q,
            ) implies seen.contains(q) by {
            if already.contains(p) {
                assert(already.contains(q));
            } else {
                assert(filled.contains(p));
                assert(filled.contains(q));
            }
        }
        assert(filled.len() > 0);
        assert(encloses(region, rect));
        box_is_unique(region, rect, box_of(region));
    }
    (area, rect)
}

/// A stack entry as a pixel.
pub open spec fn to_pixel(entry: (u32, u32)) -> Pixel {
    (entry.0 as int, entry.1 as int)
}

/// A pixel waits on the stack.
pub open spec fn on_stack(stack: Seq<(u32, u32)>, q: Pixel) -> bool {
    exists|k: int| 0 <= k < stack.len() && to_pixel(#[trigger] stack[k]) == q
}

/// Pushing a pixel adds it to what waits.
proof fn pushing_adds(stack: Seq<(u32, u32)>, entry: (u32, u32))
    ensures
        on_stack(stack.push(entry), to_pixel(entry)),
        forall|q: Pixel| #[trigger] on_stack(stack, q) ==> on_stack(stack.push(entry), q),
{
    let after = stack.push(entry);
    assert(after[stack.len() as int] == entry);
    assert forall|q: Pixel| #[trigger] on_stack(stack, q) implies on_stack(after, q) by {
        let k = choose|k: int| 0 <= k < stack.len() && to_pixel(#[trigger] stack[k]) == q;
        assert(after[k] == stack[k]);
    }
}

/// Each of four bounds is reached by some pixel of the set.
pub open spec fn touches(
    pixels: Set<Pixel>,
    min_x: int,
    max_x: int,
    min_y: int,
    max_y: int,
) -> bool {
    &&& exists|p: Pixel| #[trigger] pixels.contains(p) && p.0 == min_x
    &&& exists|p: Pixel| #[trigger] pixels.contains(p) && p.0 == max_x
    &&& exists|p: Pixel| #[trigger] pixels.contains(p) && p.1 == min_y
    &&& exists|p: Pixel| #[trigger] pixels.contains(p) && p.1 == max_y
}

/// Adding a pixel, and moving the bounds it passes to it, keeps the bounds
/// touched.
proof fn touching_grows(
    before: Set<Pixel>,
    here: Pixel,
    min_x: int,
    max_x: int,
    min_y: int,
    max_y: int,
)
    requires
        min_x == here.0 || exists|p: Pixel| #[trigger] before.contains(p) && p.0 == min_x,
        max_x == here.0 || exists|p: Pixel| #[trigger] before.contains(p) && p.0 == max_x,
        min_y == here.1 || exists|p: Pixel| #[trigger] before.contains(p) && p.1 == min_y,
        max_y == here.1 || exists|p: Pixel| #[trigger] before.contains(p) && p.1 == max_y,
    ensures
        touches(before.insert(here), min_x, max_x, min_y, max_y),
{
    let after = before.insert(here);
    assert(after.contains(here));
    if min_x != here.0 {
        let p = choose|p: Pixel| #[trigger] before.contains(p) && p.0 == min_x;
        assert(after.contains(p));
    }
    if max_x != here.0 {
        let p = choose|p: Pixel| #[trigger] before.contains(p) && p.0 == max_x;
        assert(after.contains(p));
    }
    if min_y != here.1 {
        let p = choose|p: Pixel| #[trigger] before.contains(p) && p.1 == min_y;
        assert(after.contains(p));
    }
    if max_y != here.1 {
        let p = choose|p: Pixel| #[trigger] before.contains(p) && p.1 == max_y;
        assert(after.contains(p));
    }
}

/// Every neighbour of a pixel in the picture was pushed.
proof fn pushed_neighbours(
    popped: Seq<(u32, u32)>,
    stack: Seq<(u32, u32)>,
    picture: Standout,
    here: Pixel,
    q: Pixel,
)
    requires
        adjacent(here, q),
        picture.holds(q),
        popped.len() <= stack.len(),
        here.0 > 0 ==> on_stack(stack, (here.0 - 1, here.1)),
        here.0 + 1 < picture.width ==> on_stack(stack, (here.0 + 1, here.1)),
        here.1 > 0 ==> on_stack(stack, (here.0, here.1 - 1)),
        here.1 + 1 < picture.height ==> on_stack(stack, (here.0, here.1 + 1)),
    ensures
        on_stack(stack, q),
{
}

} // verus!

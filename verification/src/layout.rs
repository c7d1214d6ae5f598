//! How the screen is divided into panels.
use vstd::prelude::*;
use ratatui::layout::{Constraint, Direction, Layout, Rect};

verus! {

/// A rectangle of terminal cells.
#[derive(Debug, Clone, Copy, PartialEq, Eq, Structural)]
pub struct Area {
    pub x: u16,
    pub y: u16,
    pub width: u16,
    pub height: u16,
}

/// How many rows a panel asks for.
#[derive(Debug, Clone, Copy, PartialEq, Eq, Structural)]
pub enum Height {
    Exactly(u16),
    AtLeast(u16),
}

/// The width that the layout keeps for panels in `area`: its width, cut
/// back so that the area does not reach past the last column.
pub open spec fn usable_width(area: Area) -> u16 {
    if area.width as int > u16::MAX - area.x {
        (u16::MAX - area.x) as u16
    } else {
        area.width
    }
}

/// Calls ratatui's `Layout::split` on `area`, stacking one rectangle per
/// entry of `heights` from top to bottom (`Constraint::Length` for
/// `Exactly`, `Constraint::Min` for `AtLeast`). The contract states that
/// there is one rectangle per height and that each spans the usable columns
/// of `area`. The rows each rectangle gets are not stated: the constraint
/// solver behind the call picks its pivots by walking hash maps whose order
/// depends on a per-process seed, so they are not named either.
#[verifier::external_body]
fn split_vertical(area: Area, heights: &Vec<Height>) -> (r: Vec<Area>)
    ensures
        r@.len() == heights@.len(),
        forall|i: int|
            0 <= i < r@.len() ==> #[trigger] r@[i].x == area.x && r@[i].width == usable_width(
                area,
            ),
{
    let constraints = heights.iter().map(|h| match h {
        Height::Exactly(n) => Constraint::Length(*n),
        Height::AtLeast(n) => Constraint::Min(*n),
    });
    let rect = Rect::new(area.x, area.y, area.width, area.height);
    let rects = Layout::default().direction(Direction::Vertical).constraints(constraints).split(rect);
    rects.iter().map(|r| Area { x: r.x, y: r.y, width: r.width, height: r.height }).collect()
}

/// The areas of the panels. The Docker panel has an area only while Docker
/// is available.
#[derive(Debug, Clone, Copy, PartialEq, Eq, Structural)]
pub struct Areas {
    pub cpu: Area,
    pub memory: Area,
    pub network: Area,
    pub process: Area,
    pub docker: Option<Area>,
}

/// The rows the panels ask for, from top to bottom: CPU 6, memory 5,
/// network 6, processes whatever is left, and Docker 8 when available.
pub open spec fn panel_heights(docker_available: bool) -> Seq<Height> {
    let base = seq![Height::Exactly(6), Height::Exactly(5), Height::Exactly(6), Height::AtLeast(0)];
    if docker_available {
        base.push(Height::Exactly(8))
    } else {
        base
    }
}

/// The panel areas from the stacked rectangles `parts`, in the order of
/// `panel_heights`.
pub open spec fn areas_of(parts: Seq<Area>, docker_available: bool) -> Areas {
    Areas {
        cpu: parts[0],
        memory: parts[1],
        network: parts[2],
        process: parts[3],
        docker: if docker_available {
            Some(parts[4])
        } else {
            None
        },
    }
}

/// The rows the panels ask for; see `panel_heights`.
fn heights_for(docker_available: bool) -> (r: Vec<Height>)
    ensures
        r@ == panel_heights(docker_available),
{
    let mut r: Vec<Height> = Vec::new();
    r.push(Height::Exactly(6));
    r.push(Height::Exactly(5));
    r.push(Height::Exactly(6));
    r.push(Height::AtLeast(0));
    if docker_available {
        r.push(Height::Exactly(8));
    }
    assert(r@ =~= panel_heights(docker_available));
    r
}

/// Hands out the stacked rectangles to the panels; see `areas_of`.
pub fn areas_from(parts: &Vec<Area>, docker_available: bool) -> (r: Areas)
    requires
        parts@.len() == panel_heights(docker_available).len(),
    ensures
        r == areas_of(parts@, docker_available),
{
    Areas {
        cpu: parts[0],
        memory: parts[1],
        network: parts[2],
        process: parts[3],
        docker: if docker_available {
            Some(parts[4])
        } else {
            None
        },
    }
}

/// Divides the screen into the panels: they are stacked as `panel_heights`
/// asks, each spans the usable columns of the screen, and the Docker panel
/// gets an area exactly when Docker is available.
pub fn build(area: Area, docker_available: bool) -> (r: Areas)
    ensures
        r.docker is Some <==> docker_available,
        exists|parts: Seq<Area>|
            {
                &&& parts.len() == panel_heights(docker_available).len()
                &&& forall|i: int|
                    0 <= i < parts.len() ==> #[trigger] parts[i].x == area.x && parts[i].width
                        == usable_width(area)
                &&& r == areas_of(parts, docker_available)
            },
{
    let heights = heights_for(docker_available);
    let parts = split_vertical(area, &heights);
    let r = areas_from(&parts, docker_available);
    assert(parts@.len() == panel_heights(docker_available).len());
    r
}

} // verus!

//! Compass sectors of a bearing.

use vstd::prelude::*;

verus! {

/// The azimuth of a cell without slope: minus one degree.
pub const FLAT_AZIMUTH: i32 = -1000;

/// A full turn, in thousandths of a degree.
pub const FULL_TURN: i32 = 360000;

/// One of eight 45-degree sectors of the compass, or `Flat` for a cell
/// that faces no direction.
#[derive(Clone, Copy, Debug, PartialEq, Eq, Hash, Structural)]
pub enum Aspect {
    North,
    Northeast,
    East,
    Southeast,
    South,
    Southwest,
    West,
    Northwest,
    Flat,
}

/// Whether `azimuth` lies on one of the eight edges between sectors.
pub open spec fn on_sector_edge(azimuth: int) -> bool {
    azimuth == 22500 || azimuth == 67500 || azimuth == 112500 || azimuth == 157500
        || azimuth == 202500 || azimuth == 247500 || azimuth == 292500 || azimuth == 337500
}

impl Aspect {
    /// The sector that owns `azimuth`. Each sector but `North` is the
    /// half-open arc from its lower edge; `North` takes what is left, below
    /// 22.5 and from 337.5 degrees on.
    pub open spec fn of_azimuth(azimuth: int) -> Aspect {
        if azimuth == FLAT_AZIMUTH {
            Aspect::Flat
        } else if azimuth < 22500 {
            Aspect::North
        } else if azimuth < 67500 {
            Aspect::Northeast
        } else if azimuth < 112500 {
            Aspect::East
        } else if azimuth < 157500 {
            Aspect::Southeast
        } else if azimuth < 202500 {
            Aspect::South
        } else if azimuth < 247500 {
            Aspect::Southwest
        } else if azimuth < 292500 {
            Aspect::West
        } else if azimuth < 337500 {
            Aspect::Northwest
        } else {
            Aspect::North
        }
    }

    /// The lower and upper edge of the sector's arc; for `North`, of its arm
    /// below the seam at 360 degrees.
    pub open spec fn arc(self) -> (int, int) {
        match self {
            Aspect::North => (337500, 360000),
            Aspect::Northeast => (22500, 67500),
            Aspect::East => (67500, 112500),
            Aspect::Southeast => (112500, 157500),
            Aspect::South => (157500, 202500),
            Aspect::Southwest => (202500, 247500),
            Aspect::West => (247500, 292500),
            Aspect::Northwest => (292500, 337500),
            Aspect::Flat => (-1000, -1000),
        }
    }

    /// Whether `azimuth` lies in the sector's arc, both edges included and
    /// each moved outwards by `tolerance`. `North` has two arms, from 0 to
    /// 22.5 degrees and from 337.5 to 360; the tolerance moves their far
    /// edges, and the seam at 0 and 360 degrees stays where it is. `Flat`
    /// covers the flat azimuth alone.
    pub open spec fn covers(self, azimuth: int, tolerance: int) -> bool {
        match self {
            Aspect::Flat => azimuth == FLAT_AZIMUTH,
            Aspect::North => {
                (0 <= azimuth && azimuth <= 22500 + tolerance) || (337500 - tolerance <= azimuth
                    && azimuth <= 360000)
            },
            _ => self.arc().0 - tolerance <= azimuth && azimuth <= self.arc().1 + tolerance,
        }
    }

    /// The name of the sector, in lower case.
    pub open spec fn name_of(self) -> Seq<char> {
        match self {
            Aspect::North => "north"@,
            Aspect::Northeast => "northeast"@,
            Aspect::East => "east"@,
            Aspect::Southeast => "southeast"@,
            Aspect::South => "south"@,
            Aspect::Southwest => "southwest"@,
            Aspect::West => "west"@,
            Aspect::Northwest => "northwest"@,
            Aspect::Flat => "flat"@,
        }
    }

    /// The name under which the sector goes in and out of the library.
    pub fn name(&self) -> (name: &'static str)
        ensures
            name@ == self.name_of(),
    {
        match self {
            Aspect::North => "north",
            Aspect::Northeast => "northeast",
            Aspect::East => "east",
            Aspect::Southeast => "southeast",
            Aspect::South => "south",
            Aspect::Southwest => "southwest",
            Aspect::West => "west",
            Aspect::Northwest => "northwest",
            Aspect::Flat => "flat",
        }
    }

    /// Classifies a bearing given in thousandths of a degree.
    pub fn from_azimuth(azimuth: i32) -> (sector: Aspect)
        ensures
            sector == Aspect::of_azimuth(azimuth as int),
            sector == Aspect::Flat <==> azimuth == FLAT_AZIMUTH,
            0 <= azimuth < FULL_TURN ==> sector != Aspect::Flat,
    {
        if azimuth == FLAT_AZIMUTH {
            Aspect::Flat
        } else if azimuth < 22500 {
            Aspect::North
        } else if azimuth < 67500 {
            Aspect::Northeast
        } else if azimuth < 112500 {
            Aspect::East
        } else if azimuth < 157500 {
            Aspect::Southeast
        } else if azimuth < 202500 {
            Aspect::South
        } else if azimuth < 247500 {
            Aspect::Southwest
        } else if azimuth < 292500 {
            Aspect::West
        } else if azimuth < 337500 {
            Aspect::Northwest
        } else {
            Aspect::North
        }
    }

    /// Tests whether a bearing falls within the sector, widened on both
    /// sides by `tolerance` (none: zero).
    pub fn contains_azimuth(&self, azimuth: i32, tolerance: Option<i32>) -> (inside: bool)
        ensures
            inside == self.covers(
                azimuth as int,
                match tolerance {
                    Some(t) => t as int,
                    None => 0,
                },
            ),
    {
        let t: i64 = match tolerance {
            Some(t) => t as i64,
            None => 0,
        };
        let a: i64 = azimuth as i64;
        match self {
            Aspect::Northeast => 22500 - t <= a && a <= 67500 + t,
            Aspect::East => 67500 - t <= a && a <= 112500 + t,
            Aspect::Southeast => 112500 - t <= a && a <= 157500 + t,
            Aspect::South => 157500 - t <= a && a <= 202500 + t,
            Aspect::Southwest => 202500 - t <= a && a <= 247500 + t,
            Aspect::West => 247500 - t <= a && a <= 292500 + t,
            Aspect::Northwest => 292500 - t <= a && a <= 337500 + t,
            Aspect::North => (0 <= a && a <= 22500 + t) || (337500 - t <= a && a <= 360000),
            Aspect::Flat => azimuth == FLAT_AZIMUTH,
        }
    }

    /// Whether any sector of `sectors` covers `azimuth` within `tolerance`.
    pub open spec fn any_covers(sectors: Seq<Aspect>, azimuth: int, tolerance: int) -> bool {
        exists|k: int| 0 <= k < sectors.len() && (#[trigger] sectors[k]).covers(azimuth, tolerance)
    }

    /// Tests a bearing against a list of sectors.
    pub fn any_contains(sectors: &Vec<Aspect>, azimuth: i32, tolerance: i32) -> (inside: bool)
        ensures
            inside == Aspect::any_covers(sectors@, azimuth as int, tolerance as int),
    {
        let mut k: usize = 0;
        while k < sectors.len()
            invariant
                k <= sectors.len(),
                forall|m: int| 0 <= m < k ==> !(#[trigger] sectors@[m]).covers(
                    azimuth as int,
                    tolerance as int,
                ),
            decreases sectors.len() - k,
        {
            if sectors[k].contains_azimuth(azimuth, Some(tolerance)) {
                return true;
            }
            k += 1;
        }
        false
    }
}

/// Off the sector edges, and for a bearing that is the flat azimuth or lies
/// between 0 and 360 degrees, a sector covers the bearing without tolerance
/// exactly when the bearing classifies to that sector.
pub proof fn lemma_covers_iff_classified(sector: Aspect, azimuth: int)
    requires
        azimuth == FLAT_AZIMUTH || 0 <= azimuth <= FULL_TURN,
        !on_sector_edge(azimuth),
    ensures
        sector.covers(azimuth, 0) <==> Aspect::of_azimuth(azimuth) == sector,
{
}

/// On a sector edge the bearing classifies to the sector that begins there,
/// and without tolerance exactly two sectors cover it: that one, and the one
/// that ends there.
pub proof fn lemma_edge_belongs_to_upper_sector(sector: Aspect, azimuth: int)
    requires
        on_sector_edge(azimuth),
    ensures
        Aspect::of_azimuth(azimuth).arc().0 == azimuth,
        sector.covers(azimuth, 0) <==> (sector == Aspect::of_azimuth(azimuth) || sector
            == Aspect::of_azimuth(azimuth - 1)),
{
}

/// `North` covers both sides of the seam whatever the tolerance: due north
/// itself, and every bearing of the last 22.5 degrees before the full turn.
pub proof fn lemma_north_spans_the_seam(azimuth: int, tolerance: int)
    requires
        tolerance >= 0,
        azimuth == 0 || 337500 <= azimuth < FULL_TURN,
    ensures
        Aspect::North.covers(azimuth, tolerance),
{
}

/// `North` does not cover the flat azimuth, nor any bearing below zero,
/// unless the tolerance brings its upper arm all the way round to it.
pub proof fn lemma_north_leaves_out_flat(azimuth: int, tolerance: int)
    requires
        azimuth < 0,
        azimuth < 337500 - tolerance,
    ensures
        !Aspect::North.covers(azimuth, tolerance),
        tolerance < 338500 ==> !Aspect::North.covers(FLAT_AZIMUTH as int, tolerance),
{
}

} // verus!

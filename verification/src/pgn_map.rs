//! The table from Signal K paths to NMEA 2000 parameter group numbers (PGNs).
use vstd::prelude::*;
use vstd::string::*;

use crate::text::text_eq;

verus! {

/// The number of rows of the PGN table.
pub const PGN_ROWS: usize = 15;

/// Row `i` of the table from Signal K paths to NMEA 2000 PGNs: the path, the
/// PGN and the PGN's name. Only paths with an NMEA 2000 equivalent are listed.
pub open spec fn pgn_row(i: int) -> (Seq<char>, u32, Seq<char>) {
    if i == 0 {
        ("navigation.attitude.roll"@, 127240, "Attitude"@)
    } else if i == 1 {
        ("navigation.attitude.pitch"@, 127240, "Attitude"@)
    } else if i == 2 {
        ("navigation.rateOfTurn"@, 127245, "Rate of Turn"@)
    } else if i == 3 {
        ("navigation.leewayAngle"@, 127249, "Leeway"@)
    } else if i == 4 {
        ("navigation.headingTrue"@, 127250, "Heading"@)
    } else if i == 5 {
        ("navigation.headingMagnetic"@, 127250, "Heading"@)
    } else if i == 6 {
        ("steering.rudderAngle"@, 127251, "Vessel Heading"@)
    } else if i == 7 {
        ("navigation.speedThroughWater"@, 127257, "Speed (Boat Speed)"@)
    } else if i == 8 {
        ("environment.wind.speedApparent"@, 128258, "Apparent Wind Speed"@)
    } else if i == 9 {
        ("environment.wind.speedTrue"@, 128259, "True Wind Speed"@)
    } else if i == 10 {
        ("environment.depth.belowTransducer"@, 128267, "Water Depth"@)
    } else if i == 11 {
        ("navigation.log"@, 128275, "Distance"@)
    } else if i == 12 {
        ("navigation.position"@, 129025, "Position (Latitude)"@)
    } else if i == 13 {
        ("navigation.speedOverGround"@, 129291, "COG & SOG"@)
    } else {
        ("navigation.courseOverGroundTrue"@, 129291, "COG & SOG"@)
    }
}

/// Row `i` of the PGN table.
fn pgn_entry(i: usize) -> (r: (&'static str, u32, &'static str))
    requires
        i < PGN_ROWS,
    ensures
        r.0@ == pgn_row(i as int).0,
        r.1 == pgn_row(i as int).1,
        r.2@ == pgn_row(i as int).2,
{
    match i {
        0 => ("navigation.attitude.roll", 127240, "Attitude"),
        1 => ("navigation.attitude.pitch", 127240, "Attitude"),
        2 => ("navigation.rateOfTurn", 127245, "Rate of Turn"),
        3 => ("navigation.leewayAngle", 127249, "Leeway"),
        4 => ("navigation.headingTrue", 127250, "Heading"),
        5 => ("navigation.headingMagnetic", 127250, "Heading"),
        6 => ("steering.rudderAngle", 127251, "Vessel Heading"),
        7 => ("navigation.speedThroughWater", 127257, "Speed (Boat Speed)"),
        8 => ("environment.wind.speedApparent", 128258, "Apparent Wind Speed"),
        9 => ("environment.wind.speedTrue", 128259, "True Wind Speed"),
        10 => ("environment.depth.belowTransducer", 128267, "Water Depth"),
        11 => ("navigation.log", 128275, "Distance"),
        12 => ("navigation.position", 129025, "Position (Latitude)"),
        13 => ("navigation.speedOverGround", 129291, "COG & SOG"),
        _ => ("navigation.courseOverGroundTrue", 129291, "COG & SOG"),
    }
}
/// The first row, from row `i` on, whose path is `path`.
pub open spec fn row_of_path(path: Seq<char>, i: nat) -> Option<nat>
    decreases PGN_ROWS - i,
{
    if i >= PGN_ROWS {
        None
    } else if pgn_row(i as int).0 == path {
        Some(i)
    } else {
        row_of_path(path, i + 1)
    }
}

/// The first row, from row `i` on, whose PGN is `pgn`.
pub open spec fn row_of_pgn(pgn: u32, i: nat) -> Option<nat>
    decreases PGN_ROWS - i,
{
    if i >= PGN_ROWS {
        None
    } else if pgn_row(i as int).1 == pgn {
        Some(i)
    } else {
        row_of_pgn(pgn, i + 1)
    }
}

/// The paths of the first `n` rows whose PGN is `pgn`, in table order.
pub open spec fn paths_of_pgn(pgn: u32, n: nat) -> Seq<Seq<char>>
    decreases n,
{
    if n == 0 {
        Seq::empty()
    } else {
        let rest = paths_of_pgn(pgn, (n - 1) as nat);
        if pgn_row(n - 1).1 == pgn {
            rest.push(pgn_row(n - 1).0)
        } else {
            rest
        }
    }
}

/// No two rows list the same path.
proof fn lemma_paths_distinct(i: int, j: int)
    requires
        0 <= i < j < PGN_ROWS,
    ensures
        pgn_row(i).0 != pgn_row(j).0,
{
    reveal_strlit("navigation.attitude.roll");
    reveal_strlit("navigation.attitude.pitch");
    reveal_strlit("navigation.rateOfTurn");
    reveal_strlit("navigation.leewayAngle");
    reveal_strlit("navigation.headingTrue");
    reveal_strlit("navigation.headingMagnetic");
    reveal_strlit("steering.rudderAngle");
    reveal_strlit("navigation.speedThroughWater");
    reveal_strlit("environment.wind.speedApparent");
    reveal_strlit("environment.wind.speedTrue");
    reveal_strlit("environment.depth.belowTransducer");
    reveal_strlit("navigation.log");
    reveal_strlit("navigation.position");
    reveal_strlit("navigation.speedOverGround");
    reveal_strlit("navigation.courseOverGroundTrue");
    if pgn_row(i).0.len() == pgn_row(j).0.len() {
        if i == 3 {
            assert(pgn_row(i).0[11] != pgn_row(j).0[11]);
        } else if i == 5 && j == 13 {
            assert(pgn_row(i).0[11] != pgn_row(j).0[11]);
        } else {
            assert(pgn_row(i).0[0] != pgn_row(j).0[0]);
        }
    }
}

/// The lookup of a row's path from any earlier row finds that row.
pub proof fn lemma_row_of_own_path(j: nat, i: nat)
    requires
        i <= j < PGN_ROWS,
    ensures
        row_of_path(pgn_row(j as int).0, i) == Some(j),
    decreases j - i,
{
    if i < j {
        lemma_paths_distinct(i as int, j as int);
        lemma_row_of_own_path(j, i + 1);
    }
}

/// Each path listed for a PGN comes from a row with that PGN.
proof fn lemma_paths_of_pgn_rows(pgn: u32, n: nat, k: int)
    requires
        n <= PGN_ROWS,
        0 <= k < paths_of_pgn(pgn, n).len(),
    ensures
        exists|j: nat| j < n && #[trigger] pgn_row(j as int).0 == paths_of_pgn(pgn, n)[k] && pgn_row(
            j as int,
        ).1 == pgn,
    decreases n,
{
    let rest = paths_of_pgn(pgn, (n - 1) as nat);
    if k < rest.len() {
        lemma_paths_of_pgn_rows(pgn, (n - 1) as nat, k);
        let j = choose|j: nat| j < n - 1 && #[trigger] pgn_row(j as int).0 == rest[k] && pgn_row(
            j as int,
        ).1 == pgn;
        assert(pgn_row(j as int).0 == paths_of_pgn(pgn, n)[k]);
    } else {
        let j = (n - 1) as nat;
        assert(pgn_row(j as int).0 == paths_of_pgn(pgn, n)[k]);
    }
}

/// Every path that `get_paths_for_pgn` lists for a PGN is looked up by
/// `get_pgn_for_path` as that same PGN.
pub proof fn lemma_listed_paths_map_back(pgn: u32, k: int)
    requires
        0 <= k < paths_of_pgn(pgn, PGN_ROWS as nat).len(),
    ensures
        row_of_path(paths_of_pgn(pgn, PGN_ROWS as nat)[k], 0) matches Some(i) && pgn_row(i as int).1
            == pgn,
{
    lemma_paths_of_pgn_rows(pgn, PGN_ROWS as nat, k);
    let j = choose|j: nat| j < PGN_ROWS && #[trigger] pgn_row(j as int).0 == paths_of_pgn(
        pgn,
        PGN_ROWS as nat,
    )[k] && pgn_row(j as int).1 == pgn;
    lemma_row_of_own_path(j, 0);
}

/// The row found for a PGN lies at or after the start and lists that PGN;
/// there is one exactly when some row from the start on lists the PGN.
proof fn lemma_row_of_pgn(pgn: u32, i: nat)
    ensures
        row_of_pgn(pgn, i) matches Some(j) ==> i <= j < PGN_ROWS && pgn_row(j as int).1 == pgn,
        row_of_pgn(pgn, i) is Some <==> exists|j: nat| i <= j < PGN_ROWS && #[trigger] pgn_row(
            j as int,
        ).1 == pgn,
    decreases PGN_ROWS - i,
{
    if i < PGN_ROWS {
        lemma_row_of_pgn(pgn, i + 1);
        if pgn_row(i as int).1 != pgn {
            if exists|j: nat| i <= j < PGN_ROWS && #[trigger] pgn_row(j as int).1 == pgn {
                let j = choose|j: nat| i <= j < PGN_ROWS && #[trigger] pgn_row(j as int).1 == pgn;
                assert(i + 1 <= j);
            }
        }
    }
}

/// The paths listed for a PGN among the first `n` rows are there exactly
/// when one of those rows lists the PGN.
proof fn lemma_paths_of_pgn_nonempty(pgn: u32, n: nat)
    ensures
        paths_of_pgn(pgn, n).len() > 0 <==> exists|j: nat| j < n && #[trigger] pgn_row(j as int).1
            == pgn,
    decreases n,
{
    if n > 0 {
        lemma_paths_of_pgn_nonempty(pgn, (n - 1) as nat);
        if pgn_row(n - 1).1 != pgn {
            if exists|j: nat| j < n && #[trigger] pgn_row(j as int).1 == pgn {
                let j = choose|j: nat| j < n && #[trigger] pgn_row(j as int).1 == pgn;
                assert(j < n - 1);
            }
        }
    }
}

/// `get_pgn_name` names a PGN exactly when `get_paths_for_pgn` lists a path
/// for it.
pub proof fn lemma_name_iff_paths(pgn: u32)
    ensures
        row_of_pgn(pgn, 0) is Some <==> paths_of_pgn(pgn, PGN_ROWS as nat).len() > 0,
{
    lemma_row_of_pgn(pgn, 0);
    lemma_paths_of_pgn_nonempty(pgn, PGN_ROWS as nat);
}

/// Rows with the same PGN give it the same name.
proof fn lemma_same_pgn_same_name(a: int, b: int)
    requires
        0 <= a < PGN_ROWS,
        0 <= b < PGN_ROWS,
        pgn_row(a).1 == pgn_row(b).1,
    ensures
        pgn_row(a).2 == pgn_row(b).2,
{
}

/// The name that `get_pgn_for_path` gives with a path's PGN is the name that
/// `get_pgn_name` gives for that PGN.
pub proof fn lemma_path_name_is_pgn_name(path: Seq<char>)
    requires
        row_of_path(path, 0) is Some,
    ensures
        row_of_pgn(pgn_row(row_of_path(path, 0).unwrap() as int).1, 0) matches Some(j) && pgn_row(
            j as int,
        ).2 == pgn_row(row_of_path(path, 0).unwrap() as int).2,
{
    let i = row_of_path(path, 0).unwrap();
    lemma_row_of_path_range(path, 0);
    let pgn = pgn_row(i as int).1;
    lemma_row_of_pgn(pgn, 0);
    assert(pgn_row(i as int).1 == pgn);
    let j = row_of_pgn(pgn, 0).unwrap();
    lemma_same_pgn_same_name(i as int, j as int);
}

/// The row found for a path lies in the table and lists that path.
proof fn lemma_row_of_path_range(path: Seq<char>, i: nat)
    ensures
        row_of_path(path, i) matches Some(j) ==> i <= j < PGN_ROWS && pgn_row(j as int).0 == path,
    decreases PGN_ROWS - i,
{
    if i < PGN_ROWS {
        lemma_row_of_path_range(path, i + 1);
    }
}

/// The views of a sequence of string slices.
pub open spec fn str_views(s: Seq<&str>) -> Seq<Seq<char>> {
    s.map_values(|t: &str| t@)
}

/// The PGN of a Signal K path and the PGN's name, from the first row that
/// lists the path; `None` for a path that no row lists.
pub fn get_pgn_for_path(path: &str) -> (r: Option<(u32, &'static str)>)
    ensures
        match row_of_path(path@, 0) {
            Some(i) => r matches Some((pgn, name)) && pgn == pgn_row(i as int).1 && name@ == pgn_row(
                i as int,
            ).2,
            None => r is None,
        },
{
    let mut i: usize = 0;
    while i < PGN_ROWS
        invariant
            i <= PGN_ROWS,
            row_of_path(path@, 0) == row_of_path(path@, i as nat),
        decreases PGN_ROWS - i,
    {
        let (p, pgn, name) = pgn_entry(i);
        if text_eq(p, path) {
            return Some((pgn, name));
        }
        i = i + 1;
    }
    None
}

/// All Signal K paths that map to `pgn`, in table order.
pub fn get_paths_for_pgn(pgn: u32) -> (r: Vec<&'static str>)
    ensures
        str_views(r@) == paths_of_pgn(pgn, PGN_ROWS as nat),
{
    let mut out: Vec<&'static str> = Vec::new();
    let mut i: usize = 0;
    assert(str_views(out@) =~= Seq::empty());
    while i < PGN_ROWS
        invariant
            i <= PGN_ROWS,
            str_views(out@) == paths_of_pgn(pgn, i as nat),
        decreases PGN_ROWS - i,
    {
        let (p, n, _) = pgn_entry(i);
        if n == pgn {
            let ghost before = str_views(out@);
            out.push(p);
            assert(str_views(out@) =~= before.push(p@));
        }
        i = i + 1;
    }
    out
}

/// The name of `pgn`, from the first row with that PGN; `None` for a PGN
/// that no row lists.
pub fn get_pgn_name(pgn: u32) -> (r: Option<&'static str>)
    ensures
        match row_of_pgn(pgn, 0) {
            Some(i) => r matches Some(name) && name@ == pgn_row(i as int).2,
            None => r is None,
        },
{
    let mut i: usize = 0;
    while i < PGN_ROWS
        invariant
            i <= PGN_ROWS,
            row_of_pgn(pgn, 0) == row_of_pgn(pgn, i as nat),
        decreases PGN_ROWS - i,
    {
        let (_, n, name) = pgn_entry(i);
        if n == pgn {
            return Some(name);
        }
        i = i + 1;
    }
    None
}

} // verus!

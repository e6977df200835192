use vstd::prelude::*;

use crate::geometry::{Vec3, dist_sq, spec_distance, abs_diff_spec};

verus! {

/// Number of locations in the static catalog.
pub const PLANET_COUNT: usize = 32;

/// Display name of each catalog location.
pub open spec fn spec_planet_name(id: int) -> Seq<char> {
    if id == 0 { "ミニュアス"@ }
    else if id == 1 { "キュクレウス"@ }
    else if id == 2 { "ヒュプノイア"@ }
    else if id == 3 { "ニュクテーナ"@ }
    else if id == 4 { "コリューバスト"@ }
    else if id == 5 { "マル・ペッサ"@ }
    else if id == 6 { "ドリュアント"@ }
    else if id == 7 { "ペルセポネ"@ }
    else if id == 8 { "ラグプール"@ }
    else if id == 9 { "ライガール"@ }
    else if id == 10 { "トリプラ"@ }
    else if id == 11 { "ダゴン"@ }
    else if id == 12 { "ドーリア"@ }
    else if id == 13 { "バンフリート"@ }
    else if id == 14 { "マル・アデッタ"@ }
    else if id == 15 { "レグニツァ"@ }
    else if id == 16 { "バーラト"@ }
    else if id == 17 { "アスターテ"@ }
    else if id == 18 { "メルカルト"@ }
    else if id == 19 { "ネプティス"@ }
    else if id == 20 { "カッファー"@ }
    else if id == 21 { "バルメレンド"@ }
    else if id == 22 { "シャンプール"@ }
    else if id == 23 { "ポレビト"@ }
    else if id == 24 { "ランテマリオ"@ }
    else if id == 25 { "エリューセラ"@ }
    else if id == 26 { "リオベルデ"@ }
    else if id == 27 { "ガンダルバ"@ }
    else if id == 28 { "エル・ファシル"@ }
    else if id == 29 { "バーミリオン"@ }
    else if id == 30 { "リューカス"@ }
    else { "ハイネセン"@ }
}

/// Position of each catalog location.
pub open spec fn spec_planet_position(id: int) -> Vec3 {
    if id == 0 { Vec3 { x: 8, y: 8, z: 8 } }
    else if id == 1 { Vec3 { x: 8, y: 16, z: 24 } }
    else if id == 2 { Vec3 { x: 16, y: 8, z: 16 } }
    else if id == 3 { Vec3 { x: 8, y: 32, z: 32 } }
    else if id == 4 { Vec3 { x: 24, y: 24, z: 32 } }
    else if id == 5 { Vec3 { x: 32, y: 8, z: 40 } }
    else if id == 6 { Vec3 { x: 16, y: 56, z: 48 } }
    else if id == 7 { Vec3 { x: 40, y: 40, z: 40 } }
    else if id == 8 { Vec3 { x: 64, y: 16, z: 24 } }
    else if id == 9 { Vec3 { x: 32, y: 64, z: 80 } }
    else if id == 10 { Vec3 { x: 56, y: 56, z: 32 } }
    else if id == 11 { Vec3 { x: 80, y: 24, z: 48 } }
    else if id == 12 { Vec3 { x: 8, y: 120, z: 56 } }
    else if id == 13 { Vec3 { x: 8, y: 104, z: 56 } }
    else if id == 14 { Vec3 { x: 120, y: 16, z: 8 } }
    else if id == 15 { Vec3 { x: 120, y: 8, z: 72 } }
    else if id == 16 { Vec3 { x: 32, y: 104, z: 24 } }
    else if id == 17 { Vec3 { x: 48, y: 88, z: 112 } }
    else if id == 18 { Vec3 { x: 88, y: 48, z: 64 } }
    else if id == 19 { Vec3 { x: 104, y: 32, z: 88 } }
    else if id == 20 { Vec3 { x: 48, y: 112, z: 88 } }
    else if id == 21 { Vec3 { x: 80, y: 80, z: 72 } }
    else if id == 22 { Vec3 { x: 112, y: 48, z: 56 } }
    else if id == 23 { Vec3 { x: 72, y: 112, z: 80 } }
    else if id == 24 { Vec3 { x: 96, y: 96, z: 24 } }
    else if id == 25 { Vec3 { x: 112, y: 72, z: 96 } }
    else if id == 26 { Vec3 { x: 96, y: 120, z: 104 } }
    else if id == 27 { Vec3 { x: 120, y: 96, z: 32 } }
    else if id == 28 { Vec3 { x: 112, y: 120, z: 48 } }
    else if id == 29 { Vec3 { x: 112, y: 112, z: 88 } }
    else if id == 30 { Vec3 { x: 120, y: 112, z: 104 } }
    else { Vec3 { x: 120, y: 120, z: 120 } }
}

/// Outgoing adjacency list of each catalog location. The relation is
/// directed: an edge here does not imply the reverse edge.
pub open spec fn spec_planet_neighbors(id: int) -> Seq<int> {
    if id == 0 { seq![1, 2] }
    else if id == 1 { seq![0, 2, 3] }
    else if id == 2 { seq![0, 1, 4, 16] }
    else if id == 3 { seq![1, 4, 12] }
    else if id == 4 { seq![2, 3, 6, 10] }
    else if id == 5 { seq![6, 7, 10, 11] }
    else if id == 6 { seq![4, 5, 9, 12] }
    else if id == 7 { seq![5, 9, 20, 21] }
    else if id == 8 { seq![10, 16, 22, 24] }
    else if id == 9 { seq![6, 7, 13] }
    else if id == 10 { seq![4, 5, 8] }
    else if id == 11 { seq![5, 18, 21] }
    else if id == 12 { seq![3, 6, 13] }
    else if id == 13 { seq![9, 12] }
    else if id == 14 { seq![27, 28] }
    else if id == 15 { seq![22, 27, 29] }
    else if id == 16 { seq![2, 8, 24] }
    else if id == 17 { seq![20, 26] }
    else if id == 18 { seq![11, 19, 22, 29] }
    else if id == 19 { seq![18, 21, 25, 30] }
    else if id == 20 { seq![7, 17, 23] }
    else if id == 21 { seq![7, 11, 19, 23] }
    else if id == 22 { seq![8, 15, 18, 28] }
    else if id == 23 { seq![20, 21, 25] }
    else if id == 24 { seq![8, 16, 28] }
    else if id == 25 { seq![19, 23, 26] }
    else if id == 26 { seq![17, 25, 31] }
    else if id == 27 { seq![14, 15] }
    else if id == 28 { seq![14, 22, 24] }
    else if id == 29 { seq![15, 18, 30] }
    else if id == 30 { seq![19, 29, 31] }
    else { seq![26, 30] }
}

/// Euclidean distance between two catalog locations, independent of adjacency.
pub open spec fn spec_planet_distance(id1: int, id2: int) -> int {
    spec_distance(spec_planet_position(id1), spec_planet_position(id2))
}

/// Every coordinate in the catalog is small.
pub proof fn lemma_position_bounded(id: int)
    requires
        0 <= id < 32,
    ensures
        spec_planet_position(id).x <= 120,
        spec_planet_position(id).y <= 120,
        spec_planet_position(id).z <= 120,
{
}

/// Every index in an adjacency list is itself a valid catalog index.
pub proof fn lemma_neighbors_valid(id: int)
    requires
        0 <= id < 32,
    ensures
        forall|j: int|
            0 <= j < spec_planet_neighbors(id).len() ==> 0 <= #[trigger] spec_planet_neighbors(
                id,
            )[j] < 32,
{
}

/// Display name of the location `id`.
pub fn planet_name(id: usize) -> (r: &'static str)
    requires
        id < 32,
    ensures
        r@ == spec_planet_name(id as int),
{
    match id {
        0 => "ミニュアス",
        1 => "キュクレウス",
        2 => "ヒュプノイア",
        3 => "ニュクテーナ",
        4 => "コリューバスト",
        5 => "マル・ペッサ",
        6 => "ドリュアント",
        7 => "ペルセポネ",
        8 => "ラグプール",
        9 => "ライガール",
        10 => "トリプラ",
        11 => "ダゴン",
        12 => "ドーリア",
        13 => "バンフリート",
        14 => "マル・アデッタ",
        15 => "レグニツァ",
        16 => "バーラト",
        17 => "アスターテ",
        18 => "メルカルト",
        19 => "ネプティス",
        20 => "カッファー",
        21 => "バルメレンド",
        22 => "シャンプール",
        23 => "ポレビト",
        24 => "ランテマリオ",
        25 => "エリューセラ",
        26 => "リオベルデ",
        27 => "ガンダルバ",
        28 => "エル・ファシル",
        29 => "バーミリオン",
        30 => "リューカス",
        _ => "ハイネセン",
    }
}

/// Position of the location `id`.
pub fn planet_position(id: usize) -> (r: Vec3)
    requires
        id < 32,
    ensures
        r == spec_planet_position(id as int),
{
    match id {
        0 => Vec3::new(8, 8, 8),
        1 => Vec3::new(8, 16, 24),
        2 => Vec3::new(16, 8, 16),
        3 => Vec3::new(8, 32, 32),
        4 => Vec3::new(24, 24, 32),
        5 => Vec3::new(32, 8, 40),
        6 => Vec3::new(16, 56, 48),
        7 => Vec3::new(40, 40, 40),
        8 => Vec3::new(64, 16, 24),
        9 => Vec3::new(32, 64, 80),
        10 => Vec3::new(56, 56, 32),
        11 => Vec3::new(80, 24, 48),
        12 => Vec3::new(8, 120, 56),
        13 => Vec3::new(8, 104, 56),
        14 => Vec3::new(120, 16, 8),
        15 => Vec3::new(120, 8, 72),
        16 => Vec3::new(32, 104, 24),
        17 => Vec3::new(48, 88, 112),
        18 => Vec3::new(88, 48, 64),
        19 => Vec3::new(104, 32, 88),
        20 => Vec3::new(48, 112, 88),
        21 => Vec3::new(80, 80, 72),
        22 => Vec3::new(112, 48, 56),
        23 => Vec3::new(72, 112, 80),
        24 => Vec3::new(96, 96, 24),
        25 => Vec3::new(112, 72, 96),
        26 => Vec3::new(96, 120, 104),
        27 => Vec3::new(120, 96, 32),
        28 => Vec3::new(112, 120, 48),
        29 => Vec3::new(112, 112, 88),
        30 => Vec3::new(120, 112, 104),
        _ => Vec3::new(120, 120, 120),
    }
}

/// Outgoing neighbors of the location `id`.
pub fn planet_neighbors(id: usize) -> (r: Vec<usize>)
    requires
        id < 32,
    ensures
        r@.len() == spec_planet_neighbors(id as int).len(),
        forall|j: int| 0 <= j < r@.len() ==> #[trigger] r@[j] as int == spec_planet_neighbors(id as int)[j],
{
    match id {
        0 => vec![1, 2],
        1 => vec![0, 2, 3],
        2 => vec![0, 1, 4, 16],
        3 => vec![1, 4, 12],
        4 => vec![2, 3, 6, 10],
        5 => vec![6, 7, 10, 11],
        6 => vec![4, 5, 9, 12],
        7 => vec![5, 9, 20, 21],
        8 => vec![10, 16, 22, 24],
        9 => vec![6, 7, 13],
        10 => vec![4, 5, 8],
        11 => vec![5, 18, 21],
        12 => vec![3, 6, 13],
        13 => vec![9, 12],
        14 => vec![27, 28],
        15 => vec![22, 27, 29],
        16 => vec![2, 8, 24],
        17 => vec![20, 26],
        18 => vec![11, 19, 22, 29],
        19 => vec![18, 21, 25, 30],
        20 => vec![7, 17, 23],
        21 => vec![7, 11, 19, 23],
        22 => vec![8, 15, 18, 28],
        23 => vec![20, 21, 25],
        24 => vec![8, 16, 28],
        25 => vec![19, 23, 26],
        26 => vec![17, 25, 31],
        27 => vec![14, 15],
        28 => vec![14, 22, 24],
        29 => vec![15, 18, 30],
        30 => vec![19, 29, 31],
        _ => vec![26, 30],
    }
}

/// Euclidean distance between the two locations' positions, defined for any
/// pair of valid indices, whether or not they are adjacent.
pub fn planet_distance(id1: usize, id2: usize) -> (r: u32)
    requires
        id1 < 32,
        id2 < 32,
    ensures
        r == spec_planet_distance(id1 as int, id2 as int),
{
    let p1 = planet_position(id1);
    let p2 = planet_position(id2);
    proof {
        lemma_position_bounded(id1 as int);
        lemma_position_bounded(id2 as int);
        let dx = abs_diff_spec(p1.x as int, p2.x as int);
        let dy = abs_diff_spec(p1.y as int, p2.y as int);
        let dz = abs_diff_spec(p1.z as int, p2.z as int);
        assert(dx * dx + dy * dy + dz * dz <= u32::MAX * u32::MAX) by (nonlinear_arith)
            requires
                0 <= dx <= 120,
                0 <= dy <= 120,
                0 <= dz <= 120,
        ;
    }
    p1.distance(p2)
}

} // verus!

//! The two lookup tables of marching cubes, and what holds of every row.
//!
//! Corners and edges of a cell are numbered after Bourke. Corner `k` of a
//! cell stands in bit `k` of a cube index, set when the field at that corner is
//! below the iso-value.
use vstd::prelude::*;

verus! {

/// For each cube index, the edges of the cell that the surface crosses: bit
/// `e` stands for edge `e`.
pub const EDGE_TABLE: [u16; 256] = [
    0x000, 0x109, 0x203, 0x30a, 0x406, 0x50f, 0x605, 0x70c,
    0x80c, 0x905, 0xa0f, 0xb06, 0xc0a, 0xd03, 0xe09, 0xf00,
    0x190, 0x099, 0x393, 0x29a, 0x596, 0x49f, 0x795, 0x69c,
    0x99c, 0x895, 0xb9f, 0xa96, 0xd9a, 0xc93, 0xf99, 0xe90,
    0x230, 0x339, 0x033, 0x13a, 0x636, 0x73f, 0x435, 0x53c,
    0xa3c, 0xb35, 0x83f, 0x936, 0xe3a, 0xf33, 0xc39, 0xd30,
    0x3a0, 0x2a9, 0x1a3, 0x0aa, 0x7a6, 0x6af, 0x5a5, 0x4ac,
    0xbac, 0xaa5, 0x9af, 0x8a6, 0xfaa, 0xea3, 0xda9, 0xca0,
    0x460, 0x569, 0x663, 0x76a, 0x066, 0x16f, 0x265, 0x36c,
    0xc6c, 0xd65, 0xe6f, 0xf66, 0x86a, 0x963, 0xa69, 0xb60,
    0x5f0, 0x4f9, 0x7f3, 0x6fa, 0x1f6, 0x0ff, 0x3f5, 0x2fc,
    0xdfc, 0xcf5, 0xfff, 0xef6, 0x9fa, 0x8f3, 0xbf9, 0xaf0,
    0x650, 0x759, 0x453, 0x55a, 0x256, 0x35f, 0x055, 0x15c,
    0xe5c, 0xf55, 0xc5f, 0xd56, 0xa5a, 0xb53, 0x859, 0x950,
    0x7c0, 0x6c9, 0x5c3, 0x4ca, 0x3c6, 0x2cf, 0x1c5, 0x0cc,
    0xfcc, 0xec5, 0xdcf, 0xcc6, 0xbca, 0xac3, 0x9c9, 0x8c0,
    0x8c0, 0x9c9, 0xac3, 0xbca, 0xcc6, 0xdcf, 0xec5, 0xfcc,
    0x0cc, 0x1c5, 0x2cf, 0x3c6, 0x4ca, 0x5c3, 0x6c9, 0x7c0,
    0x950, 0x859, 0xb53, 0xa5a, 0xd56, 0xc5f, 0xf55, 0xe5c,
    0x15c, 0x055, 0x35f, 0x256, 0x55a, 0x453, 0x759, 0x650,
    0xaf0, 0xbf9, 0x8f3, 0x9fa, 0xef6, 0xfff, 0xcf5, 0xdfc,
    0x2fc, 0x3f5, 0x0ff, 0x1f6, 0x6fa, 0x7f3, 0x4f9, 0x5f0,
    0xb60, 0xa69, 0x963, 0x86a, 0xf66, 0xe6f, 0xd65, 0xc6c,
    0x36c, 0x265, 0x16f, 0x066, 0x76a, 0x663, 0x569, 0x460,
    0xca0, 0xda9, 0xea3, 0xfaa, 0x8a6, 0x9af, 0xaa5, 0xbac,
    0x4ac, 0x5a5, 0x6af, 0x7a6, 0x0aa, 0x1a3, 0x2a9, 0x3a0,
    0xd30, 0xc39, 0xf33, 0xe3a, 0x936, 0x83f, 0xb35, 0xa3c,
    0x53c, 0x435, 0x73f, 0x636, 0x13a, 0x033, 0x339, 0x230,
    0xe90, 0xf99, 0xc93, 0xd9a, 0xa96, 0xb9f, 0x895, 0x99c,
    0x69c, 0x795, 0x49f, 0x596, 0x29a, 0x393, 0x099, 0x190,
    0xf00, 0xe09, 0xd03, 0xc0a, 0xb06, 0xa0f, 0x905, 0x80c,
    0x70c, 0x605, 0x50f, 0x406, 0x30a, 0x203, 0x109, 0x000,
];

/// For each cube index, the triangles of the cell, three edge numbers each.
/// A row packs sixteen entries of four bits, the first entry in the lowest
/// bits; the entry `0xf` ends the row.
pub const TRIANGLE_TABLE: [u64; 256] = [
    0xffffffffffffffff, 0xfffffffffffff380, 0xfffffffffffff910, 0xffffffffff189381,
    0xfffffffffffffa21, 0xffffffffffa21380, 0xffffffffff920a29, 0xfffffff89a8a2382,
    0xfffffffffffff2b3, 0xffffffffff0b82b0, 0xffffffffffb32091, 0xfffffffb89b912b1,
    0xffffffffff3ab1a3, 0xfffffffab8a801a0, 0xfffffff9ab9b3093, 0xffffffffffb8aa89,
    0xfffffffffffff874, 0xffffffffff437034, 0xffffffffff748910, 0xfffffff137174914,
    0xffffffffff748a21, 0xfffffffa21403743, 0xfffffff748209a29, 0xffff4973727929a2,
    0xffffffffff2b3748, 0xfffffff40242b74b, 0xfffffffb32748109, 0xffff1292b9b49b74,
    0xfffffff487ab31a3, 0xffff4b7401b41ab1, 0xffff30bab9b09874, 0xfffffffab99b4b74,
    0xfffffffffffff459, 0xffffffffff380459, 0xffffffffff051450, 0xfffffff513538458,
    0xffffffffff459a21, 0xfffffff594a21803, 0xfffffff204245a25, 0xffff8434535235a2,
    0xffffffffffb32459, 0xfffffff594b802b0, 0xfffffffb32510450, 0xffff584b82852512,
    0xfffffff45931ab3a, 0xffffab81a8180594, 0xffff30bab5b05045, 0xfffffffb8aa85845,
    0xffffffffff975879, 0xfffffff375359039, 0xfffffff751710870, 0xffffffffff753351,
    0xfffffff21a759879, 0xffff37503505921a, 0xffff25a758528208, 0xfffffff7533525a2,
    0xfffffff2b3987597, 0xffffb72029279759, 0xffff751871810b32, 0xfffffff51771b12b,
    0xffffb3a31a758859, 0xf0aba010b7905075, 0xf07570805a30b0ab, 0xffffffffff5b75ab,
    0xfffffffffffff56a, 0xffffffffff6a5380, 0xffffffffff6a5109, 0xfffffff6a5891381,
    0xffffffffff162561, 0xfffffff803621561, 0xfffffff620609569, 0xffff823625285895,
    0xffffffffff56ab32, 0xfffffff56a02b80b, 0xfffffff6a5b32910, 0xffffb892b92916a5,
    0xfffffff315356b36, 0xffff6b51505b0b80, 0xffff9505606306b3, 0xfffffff89bb96956,
    0xffffffffff8746a5, 0xfffffffa56374034, 0xfffffff7486a5091, 0xffff49737179156a,
    0xfffffff874156216, 0xffff743403625521, 0xffff620560509748, 0xf962695923497937,
    0xfffffff56a4872b3, 0xffffb720242746a5, 0xffff6a5b32874910, 0xf6a54b7b492b9129,
    0xffff6b51535b3748, 0xfb404b7b016b5b15, 0xf74836b630560950, 0xffff9b7974b96956,
    0xffffffffffa4694a, 0xfffffff380a946a4, 0xfffffff04606a10a, 0xffffa16468618138,
    0xfffffff462421941, 0xffff462942921803, 0xffffffffff624420, 0xfffffff624428238,
    0xfffffff32b46a94a, 0xffff6a4a94b82280, 0xffffa164606102b3, 0xf1b8b12184a16146,
    0xffff36b319639469, 0xf14641916b0181b8, 0xfffffff4600636b3, 0xffffffffff86b846,
    0xfffffffa98a876a7, 0xffffa76a907a0370, 0xffff0818717a176a, 0xfffffff37117a76a,
    0xffff768981861621, 0xf937390976192962, 0xfffffff206607087, 0xffffffffff276237,
    0xffff76898a86ab32, 0xf7a9a76790b72702, 0xfb32a767a1871081, 0xffff17616a71b12b,
    0xf63136b619768698, 0xffffffffff76b190, 0xffff06b0b3607087, 0xfffffffffffff6b7,
    0xfffffffffffffb67, 0xffffffffff67b803, 0xffffffffff67b910, 0xfffffff67b138918,
    0xffffffffff7b621a, 0xfffffff7b6803a21, 0xfffffff7b69a2092, 0xffff89a38a3a27b6,
    0xffffffffff726327, 0xfffffff026067807, 0xfffffff910732672, 0xffff678891681261,
    0xfffffff73171a67a, 0xffff801781a7167a, 0xffff7a69a0a70730, 0xfffffff9a88a7a67,
    0xffffffffff68b486, 0xfffffff640603b63, 0xfffffff109648b68, 0xffff63b139369649,
    0xfffffff1a28b6486, 0xffff640b60b03a21, 0xffff9a2920b648b4, 0xf36463b34923a39a,
    0xfffffff264248328, 0xffffffffff264240, 0xffff834642432091, 0xfffffff642241491,
    0xffff1a6648168318, 0xfffffff40660a01a, 0xf39a9303a6834364, 0xffffffffff4a649a,
    0xffffffffffb67594, 0xfffffff67b594380, 0xfffffffb67045105, 0xffff51345343867b,
    0xfffffffb6721a459, 0xffff594380a217b6, 0xffff204a24a45b67, 0xf67b25a523453843,
    0xfffffff945267327, 0xffff786260680459, 0xffff045051673263, 0xf851584812786826,
    0xffff73167161a459, 0xf459078701671a61, 0xfa737a6a305a4a04, 0xffffa84a458a7a67,
    0xfffffff98b9b6596, 0xffff590650360b63, 0xffffb65510b508b0, 0xfffffff1355363b6,
    0xffff65b8b9b59a21, 0xfa21965690b603b0, 0xf52025a50865b58b, 0xffff35a3a25363b6,
    0xffff283265825985, 0xfffffff260069659, 0xf826283865081851, 0xffffffffff612651,
    0xf698965683a61631, 0xffff06505960a01a, 0xffffffffffa65830, 0xfffffffffffff65a,
    0xffffffffffb57a5b, 0xfffffff03857ba5b, 0xfffffff091ba57b5, 0xffff1381897ba57a,
    0xfffffff15717b21b, 0xffffb27571721380, 0xffff7b2209729579, 0xf289823295b27257,
    0xfffffff573532a52, 0xffff52a578258028, 0xffff2a37353a5109, 0xf25752a278129289,
    0xffffffffff573531, 0xfffffff571170780, 0xfffffff735539309, 0xffffffffff795789,
    0xfffffff8ba8a5485, 0xffff03bba50b5405, 0xffff54aba8a48910, 0xf41314943b54a4ba,
    0xffff8548b2582152, 0xfb151b2b543b0b40, 0xf58b8545b2950520, 0xffffffffff3b2549,
    0xffff483543253a52, 0xfffffff0244252a5, 0xf910854583a532a3, 0xffff2492914252a5,
    0xfffffff153358548, 0xffffffffff501540, 0xffff530509358548, 0xfffffffffffff549,
    0xfffffffba9b947b4, 0xffffba97b9794380, 0xffffb470414b1ba1, 0xf4bab474a1843413,
    0xffff219b294b97b4, 0xf3801b2b197b9479, 0xfffffff04224b47b, 0xffff42343824b47b,
    0xffff947732972a92, 0xf70207872a4797a9, 0xfa040a1a472a3a73, 0xffffffffff4782a1,
    0xfffffff317714194, 0xffff178180714194, 0xffffffffff347304, 0xfffffffffffff784,
    0xffffffffff8ba8a9, 0xfffffffa9bb93903, 0xfffffffba88a0a10, 0xffffffffffa3ba13,
    0xfffffff8b99b1b21, 0xffff9b2921b93903, 0xffffffffffb08b20, 0xfffffffffffffb23,
    0xfffffff98aa82832, 0xffffffffff2902a9, 0xffff8a1810a82832, 0xfffffffffffff2a1,
    0xffffffffff819831, 0xfffffffffffff190, 0xfffffffffffff830, 0xffffffffffffffff,
];

/// The entry that ends a row of the triangle table.
pub const ROW_END: u64 = 0xf;

/// Whether bit `edge` of an edge mask is set.
#[verifier::opaque]
pub open spec fn flagged(mask: int, edge: int) -> bool {
    ||| edge == 0 && mask % 2 == 1
    ||| edge == 1 && (mask / 0x002) % 2 == 1
    ||| edge == 2 && (mask / 0x004) % 2 == 1
    ||| edge == 3 && (mask / 0x008) % 2 == 1
    ||| edge == 4 && (mask / 0x010) % 2 == 1
    ||| edge == 5 && (mask / 0x020) % 2 == 1
    ||| edge == 6 && (mask / 0x040) % 2 == 1
    ||| edge == 7 && (mask / 0x080) % 2 == 1
    ||| edge == 8 && (mask / 0x100) % 2 == 1
    ||| edge == 9 && (mask / 0x200) % 2 == 1
    ||| edge == 10 && (mask / 0x400) % 2 == 1
    ||| edge == 11 && (mask / 0x800) % 2 == 1
}

/// Only the twelve edges of a cell can be flagged.
pub proof fn lemma_flagged_is_edge(mask: int, edge: int)
    requires
        flagged(mask, edge),
    ensures
        0 <= edge < 12,
{
    reveal(flagged);
}

/// Whether corner `corner` of a cell with this cube index is below the
/// iso-value.
#[verifier::opaque]
pub open spec fn corner_below(cube_index: int, corner: int) -> bool {
    ||| corner == 0 && cube_index % 2 == 1
    ||| corner == 1 && (cube_index / 0x02) % 2 == 1
    ||| corner == 2 && (cube_index / 0x04) % 2 == 1
    ||| corner == 3 && (cube_index / 0x08) % 2 == 1
    ||| corner == 4 && (cube_index / 0x10) % 2 == 1
    ||| corner == 5 && (cube_index / 0x20) % 2 == 1
    ||| corner == 6 && (cube_index / 0x40) % 2 == 1
    ||| corner == 7 && (cube_index / 0x80) % 2 == 1
}

/// The corner at which an edge starts.
pub open spec fn edge_start(edge: int) -> int {
    if edge < 8 {
        edge
    } else {
        edge - 8
    }
}

/// The corner at which an edge ends.
pub open spec fn edge_end(edge: int) -> int {
    if edge == 3 {
        0
    } else if edge == 7 {
        4
    } else if edge < 8 {
        edge + 1
    } else {
        edge - 4
    }
}

/// Whether the surface crosses an edge: one of its corners is below the
/// iso-value and the other is not.
pub open spec fn crossed(cube_index: int, edge: int) -> bool {
    corner_below(cube_index, edge_start(edge)) != corner_below(cube_index, edge_end(edge))
}

/// The edge mask of a cube index flags exactly the edges that are crossed.
pub open spec fn mask_ok(cube_index: int) -> bool {
    let mask = EDGE_TABLE[cube_index] as int;
    &&& mask < 0x1000
    &&& flagged(mask, 0) == crossed(cube_index, 0)
    &&& flagged(mask, 1) == crossed(cube_index, 1)
    &&& flagged(mask, 2) == crossed(cube_index, 2)
    &&& flagged(mask, 3) == crossed(cube_index, 3)
    &&& flagged(mask, 4) == crossed(cube_index, 4)
    &&& flagged(mask, 5) == crossed(cube_index, 5)
    &&& flagged(mask, 6) == crossed(cube_index, 6)
    &&& flagged(mask, 7) == crossed(cube_index, 7)
    &&& flagged(mask, 8) == crossed(cube_index, 8)
    &&& flagged(mask, 9) == crossed(cube_index, 9)
    &&& flagged(mask, 10) == crossed(cube_index, 10)
    &&& flagged(mask, 11) == crossed(cube_index, 11)
}

/// What is left of a row holds at most `left` triangles, each on three
/// flagged edges, and then ends.
pub open spec fn triangles_ok(mask: int, rest: int, left: nat) -> bool
    decreases left,
{
    if rest % 16 == 15 {
        true
    } else {
        &&& left > 0
        &&& flagged(mask, rest % 16)
        &&& flagged(mask, (rest / 0x10) % 16)
        &&& flagged(mask, (rest / 0x100) % 16)
        &&& triangles_ok(mask, rest / 0x1000, (left - 1) as nat)
    }
}

/// The row of a cube index holds at most five triangles, all on edges that its
/// edge mask flags.
pub open spec fn row_ok(cube_index: int) -> bool {
    triangles_ok(EDGE_TABLE[cube_index] as int, TRIANGLE_TABLE[cube_index] as int, 5)
}

/// What is left of a row ends here, or starts with a triangle on three
/// flagged edges.
spec fn triple_ok(mask: int, rest: int) -> bool {
    rest % 16 == 15 || (flagged(mask, rest % 16) && flagged(mask, (rest / 0x10) % 16) && flagged(
        mask,
        (rest / 0x100) % 16,
    ))
}

/// `row_ok` written out triangle by triangle, every divisor a constant:
/// in this form the solver settles a row by evaluating it.
spec fn row_flat_ok(cube_index: int) -> bool {
    let mask = EDGE_TABLE[cube_index] as int;
    let row = TRIANGLE_TABLE[cube_index] as int;
    &&& triple_ok(mask, row)
    &&& row % 16 != 15 ==> triple_ok(mask, row / 0x1000)
    &&& (row / 0x1000) % 16 != 15 ==> triple_ok(mask, row / 0x1000000)
    &&& (row / 0x1000000) % 16 != 15 ==> triple_ok(mask, row / 0x1000000000)
    &&& (row / 0x1000000000) % 16 != 15 ==> triple_ok(mask, row / 0x1000000000000)
    &&& (row / 0x1000000000000) % 16 != 15 ==> (row / 0x1000000000000000) % 16 == 15
}

proof fn lemma_row_flat(cube_index: int)
    requires
        0 <= cube_index < 256,
        row_flat_ok(cube_index),
    ensures
        row_ok(cube_index),
{
    reveal_with_fuel(triangles_ok, 6);
}

// The rows of the two tables are settled eight at a time, each row by
// evaluating the tables at its cube index.

#[verifier::rlimit(50)]
proof fn lemma_rows_from_0()
    ensures
        forall|ci: int| 0 <= ci < 8 ==> #[trigger] row_flat_ok(ci),
{
    reveal(flagged);
    assert(row_flat_ok(0));
    assert(row_flat_ok(1));
    assert(row_flat_ok(2));
    assert(row_flat_ok(3));
    assert(row_flat_ok(4));
    assert(row_flat_ok(5));
    assert(row_flat_ok(6));
    assert(row_flat_ok(7));
}

#[verifier::rlimit(50)]
proof fn lemma_rows_from_8()
    ensures
        forall|ci: int| 8 <= ci < 16 ==> #[trigger] row_flat_ok(ci),
{
    reveal(flagged);
    assert(row_flat_ok(8));
    assert(row_flat_ok(9));
    assert(row_flat_ok(10));
    assert(row_flat_ok(11));
    assert(row_flat_ok(12));
    assert(row_flat_ok(13));
    assert(row_flat_ok(14));
    assert(row_flat_ok(15));
}

#[verifier::rlimit(50)]
proof fn lemma_rows_from_16()
    ensures
        forall|ci: int| 16 <= ci < 24 ==> #[trigger] row_flat_ok(ci),
{
    reveal(flagged);
    assert(row_flat_ok(16));
    assert(row_flat_ok(17));
    assert(row_flat_ok(18));
    assert(row_flat_ok(19));
    assert(row_flat_ok(20));
    assert(row_flat_ok(21));
    assert(row_flat_ok(22));
    assert(row_flat_ok(23));
}

#[verifier::rlimit(50)]
proof fn lemma_rows_from_24()
    ensures
        forall|ci: int| 24 <= ci < 32 ==> #[trigger] row_flat_ok(ci),
{
    reveal(flagged);
    assert(row_flat_ok(24));
    assert(row_flat_ok(25));
    assert(row_flat_ok(26));
    assert(row_flat_ok(27));
    assert(row_flat_ok(28));
    assert(row_flat_ok(29));
    assert(row_flat_ok(30));
    assert(row_flat_ok(31));
}

#[verifier::rlimit(50)]
proof fn lemma_rows_from_32()
    ensures
        forall|ci: int| 32 <= ci < 40 ==> #[trigger] row_flat_ok(ci),
{
    reveal(flagged);
    assert(row_flat_ok(32));
    assert(row_flat_ok(33));
    assert(row_flat_ok(34));
    assert(row_flat_ok(35));
    assert(row_flat_ok(36));
    assert(row_flat_ok(37));
    assert(row_flat_ok(38));
    assert(row_flat_ok(39));
}

#[verifier::rlimit(50)]
proof fn lemma_rows_from_40()
    ensures
        forall|ci: int| 40 <= ci < 48 ==> #[trigger] row_flat_ok(ci),
{
    reveal(flagged);
    assert(row_flat_ok(40));
    assert(row_flat_ok(41));
    assert(row_flat_ok(42));
    assert(row_flat_ok(43));
    assert(row_flat_ok(44));
    assert(row_flat_ok(45));
    assert(row_flat_ok(46));
    assert(row_flat_ok(47));
}

#[verifier::rlimit(50)]
proof fn lemma_rows_from_48()
    ensures
        forall|ci: int| 48 <= ci < 56 ==> #[trigger] row_flat_ok(ci),
{
    reveal(flagged);
    assert(row_flat_ok(48));
    assert(row_flat_ok(49));
    assert(row_flat_ok(50));
    assert(row_flat_ok(51));
    assert(row_flat_ok(52));
    assert(row_flat_ok(53));
    assert(row_flat_ok(54));
    assert(row_flat_ok(55));
}

#[verifier::rlimit(50)]
proof fn lemma_rows_from_56()
    ensures
        forall|ci: int| 56 <= ci < 64 ==> #[trigger] row_flat_ok(ci),
{
    reveal(flagged);
    assert(row_flat_ok(56));
    assert(row_flat_ok(57));
    assert(row_flat_ok(58));
    assert(row_flat_ok(59));
    assert(row_flat_ok(60));
    assert(row_flat_ok(61));
    assert(row_flat_ok(62));
    assert(row_flat_ok(63));
}

#[verifier::rlimit(50)]
proof fn lemma_rows_from_64()
    ensures
        forall|ci: int| 64 <= ci < 72 ==> #[trigger] row_flat_ok(ci),
{
    reveal(flagged);
    assert(row_flat_ok(64));
    assert(row_flat_ok(65));
    assert(row_flat_ok(66));
    assert(row_flat_ok(67));
    assert(row_flat_ok(68));
    assert(row_flat_ok(69));
    assert(row_flat_ok(70));
    assert(row_flat_ok(71));
}

#[verifier::rlimit(50)]
proof fn lemma_rows_from_72()
    ensures
        forall|ci: int| 72 <= ci < 80 ==> #[trigger] row_flat_ok(ci),
{
    reveal(flagged);
    assert(row_flat_ok(72));
    assert(row_flat_ok(73));
    assert(row_flat_ok(74));
    assert(row_flat_ok(75));
    assert(row_flat_ok(76));
    assert(row_flat_ok(77));
    assert(row_flat_ok(78));
    assert(row_flat_ok(79));
}

#[verifier::rlimit(50)]
proof fn lemma_rows_from_80()
    ensures
        forall|ci: int| 80 <= ci < 88 ==> #[trigger] row_flat_ok(ci),
{
    reveal(flagged);
    assert(row_flat_ok(80));
    assert(row_flat_ok(81));
    assert(row_flat_ok(82));
    assert(row_flat_ok(83));
    assert(row_flat_ok(84));
    assert(row_flat_ok(85));
    assert(row_flat_ok(86));
    assert(row_flat_ok(87));
}

#[verifier::rlimit(50)]
proof fn lemma_rows_from_88()
    ensures
        forall|ci: int| 88 <= ci < 96 ==> #[trigger] row_flat_ok(ci),
{
    reveal(flagged);
    assert(row_flat_ok(88));
    assert(row_flat_ok(89));
    assert(row_flat_ok(90));
    assert(row_flat_ok(91));
    assert(row_flat_ok(92));
    assert(row_flat_ok(93));
    assert(row_flat_ok(94));
    assert(row_flat_ok(95));
}

#[verifier::rlimit(50)]
proof fn lemma_rows_from_96()
    ensures
        forall|ci: int| 96 <= ci < 104 ==> #[trigger] row_flat_ok(ci),
{
    reveal(flagged);
    assert(row_flat_ok(96));
    assert(row_flat_ok(97));
    assert(row_flat_ok(98));
    assert(row_flat_ok(99));
    assert(row_flat_ok(100));
    assert(row_flat_ok(101));
    assert(row_flat_ok(102));
    assert(row_flat_ok(103));
}

#[verifier::rlimit(50)]
proof fn lemma_rows_from_104()
    ensures
        forall|ci: int| 104 <= ci < 112 ==> #[trigger] row_flat_ok(ci),
{
    reveal(flagged);
    assert(row_flat_ok(104));
    assert(row_flat_ok(105));
    assert(row_flat_ok(106));
    assert(row_flat_ok(107));
    assert(row_flat_ok(108));
    assert(row_flat_ok(109));
    assert(row_flat_ok(110));
    assert(row_flat_ok(111));
}

#[verifier::rlimit(50)]
proof fn lemma_rows_from_112()
    ensures
        forall|ci: int| 112 <= ci < 120 ==> #[trigger] row_flat_ok(ci),
{
    reveal(flagged);
    assert(row_flat_ok(112));
    assert(row_flat_ok(113));
    assert(row_flat_ok(114));
    assert(row_flat_ok(115));
    assert(row_flat_ok(116));
    assert(row_flat_ok(117));
    assert(row_flat_ok(118));
    assert(row_flat_ok(119));
}

#[verifier::rlimit(50)]
proof fn lemma_rows_from_120()
    ensures
        forall|ci: int| 120 <= ci < 128 ==> #[trigger] row_flat_ok(ci),
{
    reveal(flagged);
    assert(row_flat_ok(120));
    assert(row_flat_ok(121));
    assert(row_flat_ok(122));
    assert(row_flat_ok(123));
    assert(row_flat_ok(124));
    assert(row_flat_ok(125));
    assert(row_flat_ok(126));
    assert(row_flat_ok(127));
}

#[verifier::rlimit(50)]
proof fn lemma_rows_from_128()
    ensures
        forall|ci: int| 128 <= ci < 136 ==> #[trigger] row_flat_ok(ci),
{
    reveal(flagged);
    assert(row_flat_ok(128));
    assert(row_flat_ok(129));
    assert(row_flat_ok(130));
    assert(row_flat_ok(131));
    assert(row_flat_ok(132));
    assert(row_flat_ok(133));
    assert(row_flat_ok(134));
    assert(row_flat_ok(135));
}

#[verifier::rlimit(50)]
proof fn lemma_rows_from_136()
    ensures
        forall|ci: int| 136 <= ci < 144 ==> #[trigger] row_flat_ok(ci),
{
    reveal(flagged);
    assert(row_flat_ok(136));
    assert(row_flat_ok(137));
    assert(row_flat_ok(138));
    assert(row_flat_ok(139));
    assert(row_flat_ok(140));
    assert(row_flat_ok(141));
    assert(row_flat_ok(142));
    assert(row_flat_ok(143));
}

#[verifier::rlimit(50)]
proof fn lemma_rows_from_144()
    ensures
        forall|ci: int| 144 <= ci < 152 ==> #[trigger] row_flat_ok(ci),
{
    reveal(flagged);
    assert(row_flat_ok(144));
    assert(row_flat_ok(145));
    assert(row_flat_ok(146));
    assert(row_flat_ok(147));
    assert(row_flat_ok(148));
    assert(row_flat_ok(149));
    assert(row_flat_ok(150));
    assert(row_flat_ok(151));
}

#[verifier::rlimit(50)]
proof fn lemma_rows_from_152()
    ensures
        forall|ci: int| 152 <= ci < 160 ==> #[trigger] row_flat_ok(ci),
{
    reveal(flagged);
    assert(row_flat_ok(152));
    assert(row_flat_ok(153));
    assert(row_flat_ok(154));
    assert(row_flat_ok(155));
    assert(row_flat_ok(156));
    assert(row_flat_ok(157));
    assert(row_flat_ok(158));
    assert(row_flat_ok(159));
}

#[verifier::rlimit(50)]
proof fn lemma_rows_from_160()
    ensures
        forall|ci: int| 160 <= ci < 168 ==> #[trigger] row_flat_ok(ci),
{
    reveal(flagged);
    assert(row_flat_ok(160));
    assert(row_flat_ok(161));
    assert(row_flat_ok(162));
    assert(row_flat_ok(163));
    assert(row_flat_ok(164));
    assert(row_flat_ok(165));
    assert(row_flat_ok(166));
    assert(row_flat_ok(167));
}

#[verifier::rlimit(50)]
proof fn lemma_rows_from_168()
    ensures
        forall|ci: int| 168 <= ci < 176 ==> #[trigger] row_flat_ok(ci),
{
    reveal(flagged);
    assert(row_flat_ok(168));
    assert(row_flat_ok(169));
    assert(row_flat_ok(170));
    assert(row_flat_ok(171));
    assert(row_flat_ok(172));
    assert(row_flat_ok(173));
    assert(row_flat_ok(174));
    assert(row_flat_ok(175));
}

#[verifier::rlimit(50)]
proof fn lemma_rows_from_176()
    ensures
        forall|ci: int| 176 <= ci < 184 ==> #[trigger] row_flat_ok(ci),
{
    reveal(flagged);
    assert(row_flat_ok(176));
    assert(row_flat_ok(177));
    assert(row_flat_ok(178));
    assert(row_flat_ok(179));
    assert(row_flat_ok(180));
    assert(row_flat_ok(181));
    assert(row_flat_ok(182));
    assert(row_flat_ok(183));
}

#[verifier::rlimit(50)]
proof fn lemma_rows_from_184()
    ensures
        forall|ci: int| 184 <= ci < 192 ==> #[trigger] row_flat_ok(ci),
{
    reveal(flagged);
    assert(row_flat_ok(184));
    assert(row_flat_ok(185));
    assert(row_flat_ok(186));
    assert(row_flat_ok(187));
    assert(row_flat_ok(188));
    assert(row_flat_ok(189));
    assert(row_flat_ok(190));
    assert(row_flat_ok(191));
}

#[verifier::rlimit(50)]
proof fn lemma_rows_from_192()
    ensures
        forall|ci: int| 192 <= ci < 200 ==> #[trigger] row_flat_ok(ci),
{
    reveal(flagged);
    assert(row_flat_ok(192));
    assert(row_flat_ok(193));
    assert(row_flat_ok(194));
    assert(row_flat_ok(195));
    assert(row_flat_ok(196));
    assert(row_flat_ok(197));
    assert(row_flat_ok(198));
    assert(row_flat_ok(199));
}

#[verifier::rlimit(50)]
proof fn lemma_rows_from_200()
    ensures
        forall|ci: int| 200 <= ci < 208 ==> #[trigger] row_flat_ok(ci),
{
    reveal(flagged);
    assert(row_flat_ok(200));
    assert(row_flat_ok(201));
    assert(row_flat_ok(202));
    assert(row_flat_ok(203));
    assert(row_flat_ok(204));
    assert(row_flat_ok(205));
    assert(row_flat_ok(206));
    assert(row_flat_ok(207));
}

#[verifier::rlimit(50)]
proof fn lemma_rows_from_208()
    ensures
        forall|ci: int| 208 <= ci < 216 ==> #[trigger] row_flat_ok(ci),
{
    reveal(flagged);
    assert(row_flat_ok(208));
    assert(row_flat_ok(209));
    assert(row_flat_ok(210));
    assert(row_flat_ok(211));
    assert(row_flat_ok(212));
    assert(row_flat_ok(213));
    assert(row_flat_ok(214));
    assert(row_flat_ok(215));
}

#[verifier::rlimit(50)]
proof fn lemma_rows_from_216()
    ensures
        forall|ci: int| 216 <= ci < 224 ==> #[trigger] row_flat_ok(ci),
{
    reveal(flagged);
    assert(row_flat_ok(216));
    assert(row_flat_ok(217));
    assert(row_flat_ok(218));
    assert(row_flat_ok(219));
    assert(row_flat_ok(220));
    assert(row_flat_ok(221));
    assert(row_flat_ok(222));
    assert(row_flat_ok(223));
}

#[verifier::rlimit(50)]
proof fn lemma_rows_from_224()
    ensures
        forall|ci: int| 224 <= ci < 232 ==> #[trigger] row_flat_ok(ci),
{
    reveal(flagged);
    assert(row_flat_ok(224));
    assert(row_flat_ok(225));
    assert(row_flat_ok(226));
    assert(row_flat_ok(227));
    assert(row_flat_ok(228));
    assert(row_flat_ok(229));
    assert(row_flat_ok(230));
    assert(row_flat_ok(231));
}

#[verifier::rlimit(50)]
proof fn lemma_rows_from_232()
    ensures
        forall|ci: int| 232 <= ci < 240 ==> #[trigger] row_flat_ok(ci),
{
    reveal(flagged);
    assert(row_flat_ok(232));
    assert(row_flat_ok(233));
    assert(row_flat_ok(234));
    assert(row_flat_ok(235));
    assert(row_flat_ok(236));
    assert(row_flat_ok(237));
    assert(row_flat_ok(238));
    assert(row_flat_ok(239));
}

#[verifier::rlimit(50)]
proof fn lemma_rows_from_240()
    ensures
        forall|ci: int| 240 <= ci < 248 ==> #[trigger] row_flat_ok(ci),
{
    reveal(flagged);
    assert(row_flat_ok(240));
    assert(row_flat_ok(241));
    assert(row_flat_ok(242));
    assert(row_flat_ok(243));
    assert(row_flat_ok(244));
    assert(row_flat_ok(245));
    assert(row_flat_ok(246));
    assert(row_flat_ok(247));
}

#[verifier::rlimit(50)]
proof fn lemma_rows_from_248()
    ensures
        forall|ci: int| 248 <= ci < 256 ==> #[trigger] row_flat_ok(ci),
{
    reveal(flagged);
    assert(row_flat_ok(248));
    assert(row_flat_ok(249));
    assert(row_flat_ok(250));
    assert(row_flat_ok(251));
    assert(row_flat_ok(252));
    assert(row_flat_ok(253));
    assert(row_flat_ok(254));
    assert(row_flat_ok(255));
}

#[verifier::rlimit(50)]
proof fn lemma_masks_from_0()
    ensures
        forall|ci: int| 0 <= ci < 8 ==> #[trigger] mask_ok(ci),
{
    reveal(flagged);
    reveal(corner_below);
    assert(mask_ok(0));
    assert(mask_ok(1));
    assert(mask_ok(2));
    assert(mask_ok(3));
    assert(mask_ok(4));
    assert(mask_ok(5));
    assert(mask_ok(6));
    assert(mask_ok(7));
}

#[verifier::rlimit(50)]
proof fn lemma_masks_from_8()
    ensures
        forall|ci: int| 8 <= ci < 16 ==> #[trigger] mask_ok(ci),
{
    reveal(flagged);
    reveal(corner_below);
    assert(mask_ok(8));
    assert(mask_ok(9));
    assert(mask_ok(10));
    assert(mask_ok(11));
    assert(mask_ok(12));
    assert(mask_ok(13));
    assert(mask_ok(14));
    assert(mask_ok(15));
}

#[verifier::rlimit(50)]
proof fn lemma_masks_from_16()
    ensures
        forall|ci: int| 16 <= ci < 24 ==> #[trigger] mask_ok(ci),
{
    reveal(flagged);
    reveal(corner_below);
    assert(mask_ok(16));
    assert(mask_ok(17));
    assert(mask_ok(18));
    assert(mask_ok(19));
    assert(mask_ok(20));
    assert(mask_ok(21));
    assert(mask_ok(22));
    assert(mask_ok(23));
}

#[verifier::rlimit(50)]
proof fn lemma_masks_from_24()
    ensures
        forall|ci: int| 24 <= ci < 32 ==> #[trigger] mask_ok(ci),
{
    reveal(flagged);
    reveal(corner_below);
    assert(mask_ok(24));
    assert(mask_ok(25));
    assert(mask_ok(26));
    assert(mask_ok(27));
    assert(mask_ok(28));
    assert(mask_ok(29));
    assert(mask_ok(30));
    assert(mask_ok(31));
}

#[verifier::rlimit(50)]
proof fn lemma_masks_from_32()
    ensures
        forall|ci: int| 32 <= ci < 40 ==> #[trigger] mask_ok(ci),
{
    reveal(flagged);
    reveal(corner_below);
    assert(mask_ok(32));
    assert(mask_ok(33));
    assert(mask_ok(34));
    assert(mask_ok(35));
    assert(mask_ok(36));
    assert(mask_ok(37));
    assert(mask_ok(38));
    assert(mask_ok(39));
}

#[verifier::rlimit(50)]
proof fn lemma_masks_from_40()
    ensures
        forall|ci: int| 40 <= ci < 48 ==> #[trigger] mask_ok(ci),
{
    reveal(flagged);
    reveal(corner_below);
    assert(mask_ok(40));
    assert(mask_ok(41));
    assert(mask_ok(42));
    assert(mask_ok(43));
    assert(mask_ok(44));
    assert(mask_ok(45));
    assert(mask_ok(46));
    assert(mask_ok(47));
}

#[verifier::rlimit(50)]
proof fn lemma_masks_from_48()
    ensures
        forall|ci: int| 48 <= ci < 56 ==> #[trigger] mask_ok(ci),
{
    reveal(flagged);
    reveal(corner_below);
    assert(mask_ok(48));
    assert(mask_ok(49));
    assert(mask_ok(50));
    assert(mask_ok(51));
    assert(mask_ok(52));
    assert(mask_ok(53));
    assert(mask_ok(54));
    assert(mask_ok(55));
}

#[verifier::rlimit(50)]
proof fn lemma_masks_from_56()
    ensures
        forall|ci: int| 56 <= ci < 64 ==> #[trigger] mask_ok(ci),
{
    reveal(flagged);
    reveal(corner_below);
    assert(mask_ok(56));
    assert(mask_ok(57));
    assert(mask_ok(58));
    assert(mask_ok(59));
    assert(mask_ok(60));
    assert(mask_ok(61));
    assert(mask_ok(62));
    assert(mask_ok(63));
}

#[verifier::rlimit(50)]
proof fn lemma_masks_from_64()
    ensures
        forall|ci: int| 64 <= ci < 72 ==> #[trigger] mask_ok(ci),
{
    reveal(flagged);
    reveal(corner_below);
    assert(mask_ok(64));
    assert(mask_ok(65));
    assert(mask_ok(66));
    assert(mask_ok(67));
    assert(mask_ok(68));
    assert(mask_ok(69));
    assert(mask_ok(70));
    assert(mask_ok(71));
}

#[verifier::rlimit(50)]
proof fn lemma_masks_from_72()
    ensures
        forall|ci: int| 72 <= ci < 80 ==> #[trigger] mask_ok(ci),
{
    reveal(flagged);
    reveal(corner_below);
    assert(mask_ok(72));
    assert(mask_ok(73));
    assert(mask_ok(74));
    assert(mask_ok(75));
    assert(mask_ok(76));
    assert(mask_ok(77));
    assert(mask_ok(78));
    assert(mask_ok(79));
}

#[verifier::rlimit(50)]
proof fn lemma_masks_from_80()
    ensures
        forall|ci: int| 80 <= ci < 88 ==> #[trigger] mask_ok(ci),
{
    reveal(flagged);
    reveal(corner_below);
    assert(mask_ok(80));
    assert(mask_ok(81));
    assert(mask_ok(82));
    assert(mask_ok(83));
    assert(mask_ok(84));
    assert(mask_ok(85));
    assert(mask_ok(86));
    assert(mask_ok(87));
}

#[verifier::rlimit(50)]
proof fn lemma_masks_from_88()
    ensures
        forall|ci: int| 88 <= ci < 96 ==> #[trigger] mask_ok(ci),
{
    reveal(flagged);
    reveal(corner_below);
    assert(mask_ok(88));
    assert(mask_ok(89));
    assert(mask_ok(90));
    assert(mask_ok(91));
    assert(mask_ok(92));
    assert(mask_ok(93));
    assert(mask_ok(94));
    assert(mask_ok(95));
}

#[verifier::rlimit(50)]
proof fn lemma_masks_from_96()
    ensures
        forall|ci: int| 96 <= ci < 104 ==> #[trigger] mask_ok(ci),
{
    reveal(flagged);
    reveal(corner_below);
    assert(mask_ok(96));
    assert(mask_ok(97));
    assert(mask_ok(98));
    assert(mask_ok(99));
    assert(mask_ok(100));
    assert(mask_ok(101));
    assert(mask_ok(102));
    assert(mask_ok(103));
}

#[verifier::rlimit(50)]
proof fn lemma_masks_from_104()
    ensures
        forall|ci: int| 104 <= ci < 112 ==> #[trigger] mask_ok(ci),
{
    reveal(flagged);
    reveal(corner_below);
    assert(mask_ok(104));
    assert(mask_ok(105));
    assert(mask_ok(106));
    assert(mask_ok(107));
    assert(mask_ok(108));
    assert(mask_ok(109));
    assert(mask_ok(110));
    assert(mask_ok(111));
}

#[verifier::rlimit(50)]
proof fn lemma_masks_from_112()
    ensures
        forall|ci: int| 112 <= ci < 120 ==> #[trigger] mask_ok(ci),
{
    reveal(flagged);
    reveal(corner_below);
    assert(mask_ok(112));
    assert(mask_ok(113));
    assert(mask_ok(114));
    assert(mask_ok(115));
    assert(mask_ok(116));
    assert(mask_ok(117));
    assert(mask_ok(118));
    assert(mask_ok(119));
}

#[verifier::rlimit(50)]
proof fn lemma_masks_from_120()
    ensures
        forall|ci: int| 120 <= ci < 128 ==> #[trigger] mask_ok(ci),
{
    reveal(flagged);
    reveal(corner_below);
    assert(mask_ok(120));
    assert(mask_ok(121));
    assert(mask_ok(122));
    assert(mask_ok(123));
    assert(mask_ok(124));
    assert(mask_ok(125));
    assert(mask_ok(126));
    assert(mask_ok(127));
}

#[verifier::rlimit(50)]
proof fn lemma_masks_from_128()
    ensures
        forall|ci: int| 128 <= ci < 136 ==> #[trigger] mask_ok(ci),
{
    reveal(flagged);
    reveal(corner_below);
    assert(mask_ok(128));
    assert(mask_ok(129));
    assert(mask_ok(130));
    assert(mask_ok(131));
    assert(mask_ok(132));
    assert(mask_ok(133));
    assert(mask_ok(134));
    assert(mask_ok(135));
}

#[verifier::rlimit(50)]
proof fn lemma_masks_from_136()
    ensures
        forall|ci: int| 136 <= ci < 144 ==> #[trigger] mask_ok(ci),
{
    reveal(flagged);
    reveal(corner_below);
    assert(mask_ok(136));
    assert(mask_ok(137));
    assert(mask_ok(138));
    assert(mask_ok(139));
    assert(mask_ok(140));
    assert(mask_ok(141));
    assert(mask_ok(142));
    assert(mask_ok(143));
}

#[verifier::rlimit(50)]
proof fn lemma_masks_from_144()
    ensures
        forall|ci: int| 144 <= ci < 152 ==> #[trigger] mask_ok(ci),
{
    reveal(flagged);
    reveal(corner_below);
    assert(mask_ok(144));
    assert(mask_ok(145));
    assert(mask_ok(146));
    assert(mask_ok(147));
    assert(mask_ok(148));
    assert(mask_ok(149));
    assert(mask_ok(150));
    assert(mask_ok(151));
}

#[verifier::rlimit(50)]
proof fn lemma_masks_from_152()
    ensures
        forall|ci: int| 152 <= ci < 160 ==> #[trigger] mask_ok(ci),
{
    reveal(flagged);
    reveal(corner_below);
    assert(mask_ok(152));
    assert(mask_ok(153));
    assert(mask_ok(154));
    assert(mask_ok(155));
    assert(mask_ok(156));
    assert(mask_ok(157));
    assert(mask_ok(158));
    assert(mask_ok(159));
}

#[verifier::rlimit(50)]
proof fn lemma_masks_from_160()
    ensures
        forall|ci: int| 160 <= ci < 168 ==> #[trigger] mask_ok(ci),
{
    reveal(flagged);
    reveal(corner_below);
    assert(mask_ok(160));
    assert(mask_ok(161));
    assert(mask_ok(162));
    assert(mask_ok(163));
    assert(mask_ok(164));
    assert(mask_ok(165));
    assert(mask_ok(166));
    assert(mask_ok(167));
}

#[verifier::rlimit(50)]
proof fn lemma_masks_from_168()
    ensures
        forall|ci: int| 168 <= ci < 176 ==> #[trigger] mask_ok(ci),
{
    reveal(flagged);
    reveal(corner_below);
    assert(mask_ok(168));
    assert(mask_ok(169));
    assert(mask_ok(170));
    assert(mask_ok(171));
    assert(mask_ok(172));
    assert(mask_ok(173));
    assert(mask_ok(174));
    assert(mask_ok(175));
}

#[verifier::rlimit(50)]
proof fn lemma_masks_from_176()
    ensures
        forall|ci: int| 176 <= ci < 184 ==> #[trigger] mask_ok(ci),
{
    reveal(flagged);
    reveal(corner_below);
    assert(mask_ok(176));
    assert(mask_ok(177));
    assert(mask_ok(178));
    assert(mask_ok(179));
    assert(mask_ok(180));
    assert(mask_ok(181));
    assert(mask_ok(182));
    assert(mask_ok(183));
}

#[verifier::rlimit(50)]
proof fn lemma_masks_from_184()
    ensures
        forall|ci: int| 184 <= ci < 192 ==> #[trigger] mask_ok(ci),
{
    reveal(flagged);
    reveal(corner_below);
    assert(mask_ok(184));
    assert(mask_ok(185));
    assert(mask_ok(186));
    assert(mask_ok(187));
    assert(mask_ok(188));
    assert(mask_ok(189));
    assert(mask_ok(190));
    assert(mask_ok(191));
}

#[verifier::rlimit(50)]
proof fn lemma_masks_from_192()
    ensures
        forall|ci: int| 192 <= ci < 200 ==> #[trigger] mask_ok(ci),
{
    reveal(flagged);
    reveal(corner_below);
    assert(mask_ok(192));
    assert(mask_ok(193));
    assert(mask_ok(194));
    assert(mask_ok(195));
    assert(mask_ok(196));
    assert(mask_ok(197));
    assert(mask_ok(198));
    assert(mask_ok(199));
}

#[verifier::rlimit(50)]
proof fn lemma_masks_from_200()
    ensures
        forall|ci: int| 200 <= ci < 208 ==> #[trigger] mask_ok(ci),
{
    reveal(flagged);
    reveal(corner_below);
    assert(mask_ok(200));
    assert(mask_ok(201));
    assert(mask_ok(202));
    assert(mask_ok(203));
    assert(mask_ok(204));
    assert(mask_ok(205));
    assert(mask_ok(206));
    assert(mask_ok(207));
}

#[verifier::rlimit(50)]
proof fn lemma_masks_from_208()
    ensures
        forall|ci: int| 208 <= ci < 216 ==> #[trigger] mask_ok(ci),
{
    reveal(flagged);
    reveal(corner_below);
    assert(mask_ok(208));
    assert(mask_ok(209));
    assert(mask_ok(210));
    assert(mask_ok(211));
    assert(mask_ok(212));
    assert(mask_ok(213));
    assert(mask_ok(214));
    assert(mask_ok(215));
}

#[verifier::rlimit(50)]
proof fn lemma_masks_from_216()
    ensures
        forall|ci: int| 216 <= ci < 224 ==> #[trigger] mask_ok(ci),
{
    reveal(flagged);
    reveal(corner_below);
    assert(mask_ok(216));
    assert(mask_ok(217));
    assert(mask_ok(218));
    assert(mask_ok(219));
    assert(mask_ok(220));
    assert(mask_ok(221));
    assert(mask_ok(222));
    assert(mask_ok(223));
}

#[verifier::rlimit(50)]
proof fn lemma_masks_from_224()
    ensures
        forall|ci: int| 224 <= ci < 232 ==> #[trigger] mask_ok(ci),
{
    reveal(flagged);
    reveal(corner_below);
    assert(mask_ok(224));
    assert(mask_ok(225));
    assert(mask_ok(226));
    assert(mask_ok(227));
    assert(mask_ok(228));
    assert(mask_ok(229));
    assert(mask_ok(230));
    assert(mask_ok(231));
}

#[verifier::rlimit(50)]
proof fn lemma_masks_from_232()
    ensures
        forall|ci: int| 232 <= ci < 240 ==> #[trigger] mask_ok(ci),
{
    reveal(flagged);
    reveal(corner_below);
    assert(mask_ok(232));
    assert(mask_ok(233));
    assert(mask_ok(234));
    assert(mask_ok(235));
    assert(mask_ok(236));
    assert(mask_ok(237));
    assert(mask_ok(238));
    assert(mask_ok(239));
}

#[verifier::rlimit(50)]
proof fn lemma_masks_from_240()
    ensures
        forall|ci: int| 240 <= ci < 248 ==> #[trigger] mask_ok(ci),
{
    reveal(flagged);
    reveal(corner_below);
    assert(mask_ok(240));
    assert(mask_ok(241));
    assert(mask_ok(242));
    assert(mask_ok(243));
    assert(mask_ok(244));
    assert(mask_ok(245));
    assert(mask_ok(246));
    assert(mask_ok(247));
}

#[verifier::rlimit(50)]
proof fn lemma_masks_from_248()
    ensures
        forall|ci: int| 248 <= ci < 256 ==> #[trigger] mask_ok(ci),
{
    reveal(flagged);
    reveal(corner_below);
    assert(mask_ok(248));
    assert(mask_ok(249));
    assert(mask_ok(250));
    assert(mask_ok(251));
    assert(mask_ok(252));
    assert(mask_ok(253));
    assert(mask_ok(254));
    assert(mask_ok(255));
}

/// Every row of the edge table flags the crossed edges and those only.
pub proof fn lemma_edge_table(cube_index: int)
    requires
        0 <= cube_index < 256,
    ensures
        EDGE_TABLE[cube_index] < 0x1000,
        forall|edge: int|
            0 <= edge < 12 ==> flagged(EDGE_TABLE[cube_index] as int, edge) == crossed(
                cube_index,
                edge,
            ),
{
    lemma_masks(cube_index);
}

/// Every row of the triangle table is well formed.
pub proof fn lemma_triangle_table(cube_index: int)
    requires
        0 <= cube_index < 256,
    ensures
        row_ok(cube_index),
{
    lemma_rows(cube_index);
    lemma_row_flat(cube_index);
}

proof fn lemma_rows(cube_index: int)
    requires
        0 <= cube_index < 256,
    ensures
        row_flat_ok(cube_index),
{
    if cube_index < 8 {
        lemma_rows_from_0();
    } else if cube_index < 16 {
        lemma_rows_from_8();
    } else if cube_index < 24 {
        lemma_rows_from_16();
    } else if cube_index < 32 {
        lemma_rows_from_24();
    } else if cube_index < 40 {
        lemma_rows_from_32();
    } else if cube_index < 48 {
        lemma_rows_from_40();
    } else if cube_index < 56 {
        lemma_rows_from_48();
    } else if cube_index < 64 {
        lemma_rows_from_56();
    } else if cube_index < 72 {
        lemma_rows_from_64();
    } else if cube_index < 80 {
        lemma_rows_from_72();
    } else if cube_index < 88 {
        lemma_rows_from_80();
    } else if cube_index < 96 {
        lemma_rows_from_88();
    } else if cube_index < 104 {
        lemma_rows_from_96();
    } else if cube_index < 112 {
        lemma_rows_from_104();
    } else if cube_index < 120 {
        lemma_rows_from_112();
    } else if cube_index < 128 {
        lemma_rows_from_120();
    } else if cube_index < 136 {
        lemma_rows_from_128();
    } else if cube_index < 144 {
        lemma_rows_from_136();
    } else if cube_index < 152 {
        lemma_rows_from_144();
    } else if cube_index < 160 {
        lemma_rows_from_152();
    } else if cube_index < 168 {
        lemma_rows_from_160();
    } else if cube_index < 176 {
        lemma_rows_from_168();
    } else if cube_index < 184 {
        lemma_rows_from_176();
    } else if cube_index < 192 {
        lemma_rows_from_184();
    } else if cube_index < 200 {
        lemma_rows_from_192();
    } else if cube_index < 208 {
        lemma_rows_from_200();
    } else if cube_index < 216 {
        lemma_rows_from_208();
    } else if cube_index < 224 {
        lemma_rows_from_216();
    } else if cube_index < 232 {
        lemma_rows_from_224();
    } else if cube_index < 240 {
        lemma_rows_from_232();
    } else if cube_index < 248 {
        lemma_rows_from_240();
    } else {
        lemma_rows_from_248();
    }
}

proof fn lemma_masks(cube_index: int)
    requires
        0 <= cube_index < 256,
    ensures
        mask_ok(cube_index),
{
    if cube_index < 8 {
        lemma_masks_from_0();
    } else if cube_index < 16 {
        lemma_masks_from_8();
    } else if cube_index < 24 {
        lemma_masks_from_16();
    } else if cube_index < 32 {
        lemma_masks_from_24();
    } else if cube_index < 40 {
        lemma_masks_from_32();
    } else if cube_index < 48 {
        lemma_masks_from_40();
    } else if cube_index < 56 {
        lemma_masks_from_48();
    } else if cube_index < 64 {
        lemma_masks_from_56();
    } else if cube_index < 72 {
        lemma_masks_from_64();
    } else if cube_index < 80 {
        lemma_masks_from_72();
    } else if cube_index < 88 {
        lemma_masks_from_80();
    } else if cube_index < 96 {
        lemma_masks_from_88();
    } else if cube_index < 104 {
        lemma_masks_from_96();
    } else if cube_index < 112 {
        lemma_masks_from_104();
    } else if cube_index < 120 {
        lemma_masks_from_112();
    } else if cube_index < 128 {
        lemma_masks_from_120();
    } else if cube_index < 136 {
        lemma_masks_from_128();
    } else if cube_index < 144 {
        lemma_masks_from_136();
    } else if cube_index < 152 {
        lemma_masks_from_144();
    } else if cube_index < 160 {
        lemma_masks_from_152();
    } else if cube_index < 168 {
        lemma_masks_from_160();
    } else if cube_index < 176 {
        lemma_masks_from_168();
    } else if cube_index < 184 {
        lemma_masks_from_176();
    } else if cube_index < 192 {
        lemma_masks_from_184();
    } else if cube_index < 200 {
        lemma_masks_from_192();
    } else if cube_index < 208 {
        lemma_masks_from_200();
    } else if cube_index < 216 {
        lemma_masks_from_208();
    } else if cube_index < 224 {
        lemma_masks_from_216();
    } else if cube_index < 232 {
        lemma_masks_from_224();
    } else if cube_index < 240 {
        lemma_masks_from_232();
    } else if cube_index < 248 {
        lemma_masks_from_240();
    } else {
        lemma_masks_from_248();
    }
}

} // verus!

//! Fixed-point cosines and sines of whole degrees, for the directions of the
//! ray fan.

use vstd::prelude::*;

verus! {

/// The fixed-point representation of 1: two to the fortieth power.
pub const UNIT: i64 = 0x100_0000_0000;

/// The cosine of `deg` degrees, for `deg` from 0 to 90, as a multiple of
/// `1 / UNIT` rounded to nearest.
pub open spec fn quarter_wave(deg: u32) -> int {
    match deg {
        0 => 1099511627776,
        1 => 1099344166829,
        2 => 1098841835000,
        3 => 1098004785303,
        4 => 1096833272712,
        5 => 1095327654081,
        6 => 1093488388035,
        7 => 1091316034834,
        8 => 1088811256197,
        9 => 1085974815103,
        10 => 1082807575561,
        11 => 1079310502342,
        12 => 1075484660688,
        13 => 1071331215988,
        14 => 1066851433422,
        15 => 1062046677574,
        16 => 1056918412020,
        17 => 1051468198879,
        18 => 1045697698339,
        19 => 1039608668150,
        20 => 1033202963089,
        21 => 1026482534398,
        22 => 1019449429182,
        23 => 1012105789795,
        24 => 1004453853180,
        25 => 996495950191,
        26 => 988234504882,
        27 => 979672033769,
        28 => 970811145065,
        29 => 961654537882,
        30 => 952205001410,
        31 => 942465414071,
        32 => 932438742637,
        33 => 922128041329,
        34 => 911536450887,
        35 => 900667197612,
        36 => 889523592384,
        37 => 878109029652,
        38 => 866426986403,
        39 => 854481021101,
        40 => 842274772603,
        41 => 829811959049,
        42 => 817096376734,
        43 => 804131898947,
        44 => 790922474794,
        45 => 777472127994,
        46 => 763784955652,
        47 => 749865127013,
        48 => 735716882192,
        49 => 721344530882,
        50 => 706752451041,
        51 => 691945087556,
        52 => 676926950894,
        53 => 661702615726,
        54 => 646276719531,
        55 => 630653961186,
        56 => 614839099536,
        57 => 598836951940,
        58 => 582652392807,
        59 => 566290352111,
        60 => 549755813888,
        61 => 533053814719,
        62 => 516189442193,
        63 => 499167833363,
        64 => 481994173176,
        65 => 464673692894,
        66 => 447211668504,
        67 => 429613419108,
        68 => 411884305302,
        69 => 394029727547,
        70 => 376055124520,
        71 => 357965971459,
        72 => 339767778496,
        73 => 321466088975,
        74 => 303066477770,
        75 => 284574549580,
        76 => 265995937225,
        77 => 247336299932,
        78 => 228601321605,
        79 => 209796709101,
        80 => 190928190487,
        81 => 172001513297,
        82 => 153022442779,
        83 => 133996760143,
        84 => 114930260796,
        85 => 95828752579,
        86 => 76698053994,
        87 => 57543992440,
        88 => 38372402428,
        89 => 19189123810,
        90 => 0,
        _ => 0,
    }
}

/// The cosine of `deg` degrees, for `deg` from 0 to 359, in units of
/// `1 / UNIT`.
pub open spec fn cos_fixed(deg: u32) -> int {
    if deg <= 90 {
        quarter_wave(deg)
    } else if deg <= 180 {
        -quarter_wave((180 - deg) as u32)
    } else if deg <= 270 {
        -quarter_wave((deg - 180) as u32)
    } else {
        quarter_wave((360 - deg) as u32)
    }
}

/// The sine of `deg` degrees, for `deg` from 0 to 359, in units of
/// `1 / UNIT`.
pub open spec fn sin_fixed(deg: u32) -> int {
    if deg < 90 {
        cos_fixed((deg + 270) as u32)
    } else {
        cos_fixed((deg - 90) as u32)
    }
}

/// Looks up the cosine of an angle of the first quadrant.
fn quarter(deg: u32) -> (c: i64)
    ensures
        c == quarter_wave(deg),
        0 <= c <= UNIT,
{
    match deg {
        0 => 1099511627776,
        1 => 1099344166829,
        2 => 1098841835000,
        3 => 1098004785303,
        4 => 1096833272712,
        5 => 1095327654081,
        6 => 1093488388035,
        7 => 1091316034834,
        8 => 1088811256197,
        9 => 1085974815103,
        10 => 1082807575561,
        11 => 1079310502342,
        12 => 1075484660688,
        13 => 1071331215988,
        14 => 1066851433422,
        15 => 1062046677574,
        16 => 1056918412020,
        17 => 1051468198879,
        18 => 1045697698339,
        19 => 1039608668150,
        20 => 1033202963089,
        21 => 1026482534398,
        22 => 1019449429182,
        23 => 1012105789795,
        24 => 1004453853180,
        25 => 996495950191,
        26 => 988234504882,
        27 => 979672033769,
        28 => 970811145065,
        29 => 961654537882,
        30 => 952205001410,
        31 => 942465414071,
        32 => 932438742637,
        33 => 922128041329,
        34 => 911536450887,
        35 => 900667197612,
        36 => 889523592384,
        37 => 878109029652,
        38 => 866426986403,
        39 => 854481021101,
        40 => 842274772603,
        41 => 829811959049,
        42 => 817096376734,
        43 => 804131898947,
        44 => 790922474794,
        45 => 777472127994,
        46 => 763784955652,
        47 => 749865127013,
        48 => 735716882192,
        49 => 721344530882,
        50 => 706752451041,
        51 => 691945087556,
        52 => 676926950894,
        53 => 661702615726,
        54 => 646276719531,
        55 => 630653961186,
        56 => 614839099536,
        57 => 598836951940,
        58 => 582652392807,
        59 => 566290352111,
        60 => 549755813888,
        61 => 533053814719,
        62 => 516189442193,
        63 => 499167833363,
        64 => 481994173176,
        65 => 464673692894,
        66 => 447211668504,
        67 => 429613419108,
        68 => 411884305302,
        69 => 394029727547,
        70 => 376055124520,
        71 => 357965971459,
        72 => 339767778496,
        73 => 321466088975,
        74 => 303066477770,
        75 => 284574549580,
        76 => 265995937225,
        77 => 247336299932,
        78 => 228601321605,
        79 => 209796709101,
        80 => 190928190487,
        81 => 172001513297,
        82 => 153022442779,
        83 => 133996760143,
        84 => 114930260796,
        85 => 95828752579,
        86 => 76698053994,
        87 => 57543992440,
        88 => 38372402428,
        89 => 19189123810,
        90 => 0,
        _ => 0,
    }
}

/// Looks up the cosine of `deg` degrees.
pub fn cosine(deg: u32) -> (c: i64)
    requires
        deg < 360,
    ensures
        c == cos_fixed(deg),
        -UNIT <= c <= UNIT,
{
    if deg <= 90 {
        quarter(deg)
    } else if deg <= 180 {
        -quarter(180 - deg)
    } else if deg <= 270 {
        -quarter(deg - 180)
    } else {
        quarter(360 - deg)
    }
}

/// Looks up the sine of `deg` degrees.
pub fn sine(deg: u32) -> (s: i64)
    requires
        deg < 360,
    ensures
        s == sin_fixed(deg),
        -UNIT <= s <= UNIT,
{
    if deg < 90 {
        cosine(deg + 270)
    } else {
        cosine(deg - 90)
    }
}

/// Whether the table entries for `deg` and for its complement are the two
/// coordinates of a point of the unit circle, give or take two units.
pub open spec fn on_circle(deg: u32) -> bool {
    let c = quarter_wave(deg);
    let s = quarter_wave((90 - deg) as u32);
    &&& 0 <= c <= UNIT
    &&& 0 <= s <= UNIT
    &&& UNIT * UNIT - 2 * UNIT <= c * c + s * s <= UNIT * UNIT + 2 * UNIT
}

/// Every entry of the table pairs with its complement to a point of the
/// unit circle, entry by entry.
proof fn lemma_quarter_wave(deg: u32)
    requires
        deg <= 90,
    ensures
        on_circle(deg),
{
    assert(on_circle(0));
    assert(on_circle(1));
    assert(on_circle(2));
    assert(on_circle(3));
    assert(on_circle(4));
    assert(on_circle(5));
    assert(on_circle(6));
    assert(on_circle(7));
    assert(on_circle(8));
    assert(on_circle(9));
    assert(on_circle(10));
    assert(on_circle(11));
    assert(on_circle(12));
    assert(on_circle(13));
    assert(on_circle(14));
    assert(on_circle(15));
    assert(on_circle(16));
    assert(on_circle(17));
    assert(on_circle(18));
    assert(on_circle(19));
    assert(on_circle(20));
    assert(on_circle(21));
    assert(on_circle(22));
    assert(on_circle(23));
    assert(on_circle(24));
    assert(on_circle(25));
    assert(on_circle(26));
    assert(on_circle(27));
    assert(on_circle(28));
    assert(on_circle(29));
    assert(on_circle(30));
    assert(on_circle(31));
    assert(on_circle(32));
    assert(on_circle(33));
    assert(on_circle(34));
    assert(on_circle(35));
    assert(on_circle(36));
    assert(on_circle(37));
    assert(on_circle(38));
    assert(on_circle(39));
    assert(on_circle(40));
    assert(on_circle(41));
    assert(on_circle(42));
    assert(on_circle(43));
    assert(on_circle(44));
    assert(on_circle(45));
    if deg > 45 {
        assert(on_circle((90 - deg) as u32));
    }
}

/// The table is a point of the unit circle at every angle, up to rounding:
/// the squares of cosine and sine add up to the square of `UNIT`, give or
/// take two units.
pub proof fn lemma_unit_circle(deg: u32)
    requires
        deg < 360,
    ensures
        UNIT * UNIT - 2 * UNIT <= cos_fixed(deg) * cos_fixed(deg) + sin_fixed(deg) * sin_fixed(deg)
            <= UNIT * UNIT + 2 * UNIT,
        -UNIT <= cos_fixed(deg) <= UNIT,
        -UNIT <= sin_fixed(deg) <= UNIT,
{
    let a: u32 = if deg <= 90 {
        deg
    } else if deg <= 180 {
        (180 - deg) as u32
    } else if deg <= 270 {
        (deg - 180) as u32
    } else {
        (360 - deg) as u32
    };
    lemma_quarter_wave(a);
    let qc = quarter_wave(a);
    let qs = quarter_wave((90 - a) as u32);
    let c = cos_fixed(deg);
    let s = sin_fixed(deg);
    assert(c == qc || c == -qc);
    assert(s == qs || s == -qs);
    assert(c * c == qc * qc) by (nonlinear_arith)
        requires
            c == qc || c == -qc,
    ;
    assert(s * s == qs * qs) by (nonlinear_arith)
        requires
            s == qs || s == -qs,
    ;
}

} // verus!

//! The fourteen test colour samples of the colour rendering index.
//!
//! The spectral radiance factors are those that the CIE publishes with
//! CIE 013.3-1995, at every fifth nanometre from 380 nm to 780 nm. The working
//! grid has a sample at every nanometre; the values in between are
//! interpolated linearly, which thousandths allow without any rounding.
use crate::cri::N_TCS;
use crate::spectrum::{lerp_of, Colorant, Spectrum};
use vstd::array::array_as_slice;
use vstd::prelude::*;

verus! {

/// The spectral radiance factors of the test colour samples, in thousandths:
/// one row for each sample, one entry for each fifth nanometre from 380 nm to
/// 780 nm.
pub const TCS5: [[u16; 81]; 14] = [
    [
        219, 239, 252, 256, 256, 254, 252, 248, 244, 240, 237, 232, 230, 226, 225, 222, 220,
        218, 216, 214, 214, 214, 216, 218, 223, 225, 226, 226, 225, 225, 227, 230, 236, 245,
        253, 262, 272, 283, 298, 318, 341, 367, 390, 409, 424, 435, 442, 448, 450, 451, 451,
        451, 451, 451, 450, 450, 451, 451, 453, 454, 455, 457, 458, 460, 462, 463, 464, 465,
        466, 466, 466, 466, 467, 467, 467, 467, 467, 467, 467, 467, 467,
    ],
    [
        70, 79, 89, 101, 111, 116, 118, 120, 121, 122, 122, 122, 123, 124, 127, 128, 131, 134,
        138, 143, 150, 159, 174, 190, 207, 225, 242, 253, 260, 264, 267, 269, 272, 276, 282,
        289, 299, 309, 322, 329, 335, 339, 341, 341, 342, 342, 342, 341, 341, 339, 339, 338,
        338, 337, 336, 335, 334, 332, 332, 331, 331, 330, 329, 328, 328, 327, 326, 325, 324,
        324, 324, 323, 322, 321, 320, 318, 316, 315, 315, 314, 314,
    ],
    [
        65, 68, 70, 72, 73, 73, 74, 74, 74, 73, 73, 73, 73, 73, 74, 75, 77, 80, 85, 94, 109,
        126, 148, 172, 198, 221, 241, 260, 278, 302, 339, 370, 392, 399, 400, 393, 380, 365,
        349, 332, 315, 299, 285, 272, 264, 257, 252, 247, 241, 235, 229, 224, 220, 217, 216,
        216, 219, 224, 230, 238, 251, 269, 288, 312, 340, 366, 390, 412, 431, 447, 460, 472,
        481, 488, 493, 497, 500, 502, 505, 510, 516,
    ],
    [
        74, 83, 93, 105, 116, 121, 124, 126, 128, 131, 135, 139, 144, 151, 161, 172, 186, 205,
        229, 254, 281, 308, 332, 352, 370, 383, 390, 394, 395, 392, 385, 377, 367, 354, 341,
        327, 312, 296, 280, 263, 247, 229, 214, 198, 185, 175, 169, 164, 160, 156, 154, 152,
        151, 149, 148, 148, 148, 149, 151, 154, 158, 162, 165, 168, 170, 171, 170, 168, 166,
        164, 164, 165, 168, 172, 177, 181, 185, 189, 192, 194, 197,
    ],
    [
        295, 306, 310, 312, 313, 315, 319, 322, 326, 330, 334, 339, 346, 352, 360, 369, 381,
        394, 403, 410, 415, 418, 419, 417, 413, 409, 403, 396, 389, 381, 372, 363, 353, 342,
        331, 320, 308, 296, 284, 271, 260, 247, 232, 220, 210, 200, 194, 189, 185, 183, 180,
        177, 176, 175, 175, 175, 175, 177, 180, 183, 186, 189, 192, 195, 199, 200, 199, 198,
        196, 195, 195, 196, 197, 200, 203, 205, 208, 212, 215, 217, 219,
    ],
    [
        151, 203, 265, 339, 410, 464, 492, 508, 517, 524, 531, 538, 544, 551, 556, 556, 554,
        549, 541, 531, 519, 504, 488, 469, 450, 431, 414, 395, 377, 358, 341, 325, 309, 293,
        279, 265, 253, 241, 234, 227, 225, 222, 221, 220, 220, 220, 220, 220, 223, 227, 233,
        239, 244, 251, 258, 263, 268, 273, 278, 281, 283, 286, 291, 296, 302, 313, 325, 338,
        351, 364, 376, 389, 401, 413, 425, 436, 447, 458, 469, 477, 485,
    ],
    [
        378, 459, 524, 546, 551, 555, 559, 560, 561, 558, 556, 551, 544, 535, 522, 506, 488,
        469, 448, 429, 408, 385, 363, 341, 324, 311, 301, 291, 283, 273, 265, 260, 257, 257,
        259, 260, 260, 258, 256, 254, 254, 259, 270, 284, 302, 324, 344, 362, 377, 389, 400,
        410, 420, 429, 438, 445, 452, 457, 462, 466, 468, 470, 473, 477, 483, 489, 496, 503,
        511, 518, 525, 532, 539, 546, 553, 559, 565, 570, 575, 578, 581,
    ],
    [
        104, 129, 170, 240, 319, 416, 462, 482, 490, 488, 482, 473, 462, 450, 439, 426, 413,
        397, 382, 366, 352, 337, 325, 310, 299, 289, 283, 276, 270, 262, 256, 251, 250, 251,
        254, 258, 264, 269, 272, 274, 278, 284, 295, 316, 348, 384, 434, 482, 528, 568, 604,
        629, 648, 663, 676, 685, 693, 700, 705, 709, 712, 715, 717, 719, 721, 720, 719, 722,
        725, 727, 729, 730, 730, 730, 730, 730, 730, 730, 730, 730, 730,
    ],
    [
        66, 62, 58, 55, 52, 52, 51, 50, 50, 49, 48, 47, 46, 44, 42, 41, 38, 35, 33, 31, 30, 29,
        28, 28, 28, 29, 30, 30, 31, 31, 32, 32, 33, 34, 35, 37, 41, 44, 48, 52, 60, 76, 102,
        136, 190, 256, 336, 418, 505, 581, 641, 682, 717, 740, 758, 770, 781, 790, 797, 803,
        809, 814, 819, 824, 828, 830, 831, 833, 835, 836, 836, 837, 838, 839, 839, 839, 839,
        839, 839, 839, 839,
    ],
    [
        50, 54, 59, 63, 66, 67, 68, 69, 69, 70, 72, 73, 76, 78, 83, 88, 95, 103, 113, 125, 142,
        162, 189, 219, 262, 305, 365, 416, 465, 509, 546, 581, 610, 634, 653, 666, 678, 687,
        693, 698, 701, 704, 705, 705, 706, 707, 707, 707, 708, 708, 710, 711, 712, 714, 716,
        718, 720, 722, 725, 729, 731, 735, 739, 742, 746, 748, 749, 751, 753, 754, 755, 755,
        755, 755, 756, 757, 758, 759, 759, 759, 759,
    ],
    [
        111, 121, 127, 129, 127, 121, 116, 112, 108, 105, 104, 104, 105, 106, 110, 115, 123,
        134, 148, 167, 192, 219, 252, 291, 325, 347, 356, 353, 346, 333, 314, 294, 271, 248,
        227, 206, 188, 170, 153, 138, 125, 114, 106, 100, 96, 92, 90, 87, 85, 82, 80, 79, 78,
        78, 78, 78, 81, 83, 88, 93, 102, 112, 125, 141, 161, 182, 203, 223, 242, 257, 270, 282,
        292, 302, 310, 314, 317, 323, 330, 334, 338,
    ],
    [
        120, 103, 90, 82, 76, 68, 64, 65, 75, 93, 123, 160, 207, 256, 300, 331, 346, 347, 341,
        328, 307, 282, 257, 230, 204, 178, 154, 129, 109, 90, 75, 62, 51, 41, 35, 29, 25, 22,
        19, 17, 17, 17, 16, 16, 16, 16, 16, 16, 16, 16, 18, 18, 18, 18, 19, 20, 23, 24, 26, 30,
        35, 43, 56, 74, 97, 128, 166, 210, 257, 305, 354, 401, 446, 485, 520, 551, 577, 599,
        618, 633, 645,
    ],
    [
        104, 127, 161, 211, 264, 313, 341, 352, 359, 361, 364, 365, 367, 369, 372, 374, 376,
        379, 384, 389, 397, 405, 416, 429, 443, 454, 461, 466, 469, 471, 474, 476, 483, 490,
        506, 526, 553, 582, 618, 651, 680, 701, 717, 729, 736, 742, 745, 747, 748, 748, 748,
        748, 748, 748, 748, 748, 747, 747, 747, 747, 747, 747, 747, 746, 746, 746, 745, 744,
        743, 744, 745, 748, 750, 750, 749, 748, 748, 747, 747, 747, 747,
    ],
    [
        36, 36, 37, 38, 39, 39, 40, 41, 42, 42, 43, 44, 44, 45, 45, 46, 47, 48, 50, 52, 55, 57,
        62, 67, 75, 83, 92, 100, 108, 121, 133, 142, 150, 154, 155, 152, 147, 140, 133, 125,
        118, 112, 106, 101, 98, 95, 93, 90, 89, 87, 86, 85, 84, 84, 84, 84, 85, 87, 92, 96, 102,
        110, 123, 137, 152, 169, 188, 207, 226, 243, 260, 277, 294, 310, 325, 339, 353, 366,
        379, 390, 399,
    ],
];

/// The radiance factor of sample `i` at `380 + j` nanometres, in millionths.
pub open spec fn tcs_of(i: int, j: int) -> int {
    let k = j / 5;
    let f = j % 5;
    if f == 0 {
        1000 * TCS5[i][k]
    } else {
        200 * (TCS5[i][k] * (5 - f) + TCS5[i][k + 1] * f)
    }
}

/// The tabulated values of sample `i`, in millionths.
pub open spec fn tabulated_of(i: int) -> Seq<int> {
    Seq::new(81, |k: int| 1000 * TCS5[i][k])
}

/// Interpolating the tabulated values of a sample onto the working grid
/// gives `tcs_of`.
pub proof fn lemma_tcs_interpolated(i: int, j: int)
    requires
        0 <= i < 14,
        0 <= j < 401,
    ensures
        lerp_of(tabulated_of(i), 401, j) == tcs_of(i, j),
{
    let data: Seq<int> = tabulated_of(i);
    let pos: int = j * (data.len() - 1);
    assert(data.len() == 81);
    assert(pos == 80 * j) by (nonlinear_arith)
        requires
            pos == j * (data.len() - 1),
            data.len() == 81,
    ;
    let k: int = j / 5;
    let f: int = j % 5;
    assert(pos / 400 == k);
    assert(pos % 400 == 80 * f);
    if f != 0 {
        let a: int = TCS5[i][k] as int;
        let b: int = TCS5[i][k + 1] as int;
        assert(data[k] == 1000 * a);
        assert(data[k + 1] == 1000 * b);
        let t: int = a * (5 - f) + b * f;
        assert(data[k] * (400 - 80 * f) + data[k + 1] * (80 * f) == 400 * (200 * t))
            by (nonlinear_arith)
            requires
                data[k] == 1000 * a,
                data[k + 1] == 1000 * b,
                t == a * (5 - f) + b * f,
        ;
        assert((400 * (200 * t)) / 400 == 200 * t);
    }
}

/// Whether `samples` are the fourteen test colour samples on the working
/// grid, in their order.
pub open spec fn is_tcs(samples: [Colorant; 14]) -> bool {
    forall|i: int, j: int| 0 <= i < 14 && 0 <= j < 401 ==> samples[i].0@[j] == tcs_of(i, j)
}

/// There is one set of test colour samples: whenever and however often they
/// are built, they are the same.
pub proof fn lemma_tcs_unique(first: [Colorant; 14], second: [Colorant; 14])
    requires
        is_tcs(first),
        is_tcs(second),
    ensures
        first == second,
{
    assert forall|i: int| 0 <= i < 14 implies first[i] == second[i] by {
        assert forall|j: int| 0 <= j < 401 implies first[i].0.0[j] == second[i].0.0[j] by {
            assert(first[i].0@[j] == tcs_of(i, j));
            assert(second[i].0@[j] == tcs_of(i, j));
        }
        assert(first[i].0.0 =~= second[i].0.0);
    }
    assert(first =~= second);
}

/// The fourteen test colour samples on the working grid, in their order.
pub fn tcs() -> (r: [Colorant; 14])
    ensures
        is_tcs(r),
{
    let mut out: [Colorant; 14] = [Colorant(Spectrum([0; 401])); 14];
    let mut i: usize = 0;
    while i < N_TCS
        invariant
            i <= 14,
            forall|a: int, j: int| 0 <= a < i && 0 <= j < 401 ==> out[a].0@[j] == tcs_of(a, j),
        decreases 14 - i,
    {
        let mut row: [i64; 81] = [0; 81];
        let mut k: usize = 0;
        while k < 81
            invariant
                k <= 81,
                i < 14,
                forall|b: int| 0 <= b < k ==> row[b] as int == 1000 * TCS5[i as int][b],
            decreases 81 - k,
        {
            row[k] = 1000 * (TCS5[i][k] as i64);
            k = k + 1;
        }
        let data = array_as_slice(&row);
        assert(data@.map_values(|v: i64| v as int) =~= tabulated_of(i as int));
        match Spectrum::linear_interpolate(data) {
            Some(s) => {
                proof {
                    assert forall|j: int| 0 <= j < 401 implies s@[j] == tcs_of(i as int, j) by {
                        lemma_tcs_interpolated(i as int, j);
                    }
                }
                out[i] = Colorant(s);
            },
            None => {},
        }
        i = i + 1;
    }
    out
}

} // verus!

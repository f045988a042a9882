//! Pixel formats for the tray icon and the overlay: the renderer produces
//! premultiplied RGBA; the tray wants unpremultiplied ARGB and the Wayland
//! buffer wants BGRA.

use vstd::prelude::*;

use crate::daemon::Phase;

verus! {

/// What tiny-skia's `PremultipliedColorU8::demultiply` gives for the
/// premultiplied pixel `(r, g, b, a)`: its straight red, green and blue.
pub uninterp spec fn demultiplied(r: u8, g: u8, b: u8, a: u8) -> (u8, u8, u8);

/// Calls tiny-skia's `PremultipliedColorU8::demultiply`. The contract claims
/// that the result depends only on the pixel (named `demultiplied`), that an
/// opaque pixel comes back unchanged and that a fully transparent pixel comes
/// back black; how other pixels are rounded is left unsaid.
#[verifier::external_body]
fn demultiply(r: u8, g: u8, b: u8, a: u8) -> (c: (u8, u8, u8))
    requires
        r <= a,
        g <= a,
        b <= a,
    ensures
        c == demultiplied(r, g, b, a),
        a == 255 ==> c == (r, g, b),
        a == 0 ==> c == (0u8, 0u8, 0u8),
{
    let px = tiny_skia::PremultipliedColorU8::from_rgba(r, g, b, a).unwrap().demultiply();
    (px.red(), px.green(), px.blue())
}

/// Four times the pixel count never passes the byte count, and once fewer
/// than four bytes remain the count is reached.
proof fn lemma_pixel_count(len: int, i: int)
    requires
        0 <= 4 * i <= len,
    ensures
        i <= len / 4,
        len - 4 * i < 4 ==> len / 4 == i,
{
    assert(i <= len / 4) by (nonlinear_arith)
        requires
            0 <= 4 * i <= len,
    ;
    if len - 4 * i < 4 {
        assert(len / 4 == i) by (nonlinear_arith)
            requires
                0 <= 4 * i <= len,
                len - 4 * i < 4,
        ;
    }
}

/// Whole RGBA pixels whose color channels do not exceed their alpha.
pub open spec fn premultiplied(rgba: Seq<u8>) -> bool {
    &&& rgba.len() % 4 == 0
    &&& forall|i: int| 0 <= i < rgba.len() / 4 ==> {
        &&& #[trigger] rgba[4 * i] <= rgba[4 * i + 3]
        &&& rgba[4 * i + 1] <= rgba[4 * i + 3]
        &&& rgba[4 * i + 2] <= rgba[4 * i + 3]
    }
}

/// Whether `rgba` holds whole premultiplied pixels.
pub fn is_premultiplied(rgba: &[u8]) -> (b: bool)
    ensures
        b == premultiplied(rgba@),
{
    if rgba.len() % 4 != 0 {
        return false;
    }
    let mut j: usize = 0;
    let ghost mut i: int = 0;
    while rgba.len() - j >= 4
        invariant
            rgba@.len() % 4 == 0,
            j == 4 * i,
            j <= rgba@.len(),
            forall|k: int| 0 <= k < i ==> {
                &&& #[trigger] rgba@[4 * k] <= rgba@[4 * k + 3]
                &&& rgba@[4 * k + 1] <= rgba@[4 * k + 3]
                &&& rgba@[4 * k + 2] <= rgba@[4 * k + 3]
            },
        decreases rgba.len() - j,
    {
        let a = rgba[j + 3];
        if rgba[j] > a || rgba[j + 1] > a || rgba[j + 2] > a {
            proof {
                lemma_pixel_count(rgba@.len() as int, i);
                assert(rgba@.len() - 4 * i >= 4);
                assert(i < rgba@.len() / 4) by (nonlinear_arith)
                    requires
                        rgba@.len() - 4 * i >= 4,
                        i <= rgba@.len() / 4,
                        rgba@.len() % 4 == 0,
                ;
            }
            return false;
        }
        j = j + 4;
        proof {
            i = i + 1;
        }
    }
    proof {
        lemma_pixel_count(rgba@.len() as int, i);
        assert(rgba@.len() / 4 == i);
        assert forall|k: int| 0 <= k < rgba@.len() / 4 implies {
            &&& #[trigger] rgba@[4 * k] <= rgba@[4 * k + 3]
            &&& rgba@[4 * k + 1] <= rgba@[4 * k + 3]
            &&& rgba@[4 * k + 2] <= rgba@[4 * k + 3]
        } by {
            assert(k < i);
        }
        assert(rgba@.len() % 4 == 0);
        assert(premultiplied(rgba@));
    }
    true
}

/// The straight color of premultiplied pixel `i`.
pub open spec fn pixel_color(rgba: Seq<u8>, i: int) -> (u8, u8, u8) {
    demultiplied(rgba[4 * i], rgba[4 * i + 1], rgba[4 * i + 2], rgba[4 * i + 3])
}

/// `argb` holds the pixels of `rgba` as unpremultiplied A, R, G, B.
pub open spec fn argb_of(rgba: Seq<u8>, argb: Seq<u8>) -> bool {
    &&& argb.len() == rgba.len()
    &&& forall|i: int| 0 <= i < rgba.len() / 4 ==> {
        &&& #[trigger] argb[4 * i] == rgba[4 * i + 3]
        &&& argb[4 * i + 1] == pixel_color(rgba, i).0
        &&& argb[4 * i + 2] == pixel_color(rgba, i).1
        &&& argb[4 * i + 3] == pixel_color(rgba, i).2
    }
}

/// Opaque pixels of `rgba` keep their color in `argb`; fully transparent ones
/// become black.
pub open spec fn extremes_exact(rgba: Seq<u8>, argb: Seq<u8>) -> bool {
    forall|i: int| 0 <= i < rgba.len() / 4 ==> {
        &&& (#[trigger] rgba[4 * i + 3] == 255) ==> {
            &&& argb[4 * i + 1] == rgba[4 * i]
            &&& argb[4 * i + 2] == rgba[4 * i + 1]
            &&& argb[4 * i + 3] == rgba[4 * i + 2]
        }
        &&& rgba[4 * i + 3] == 0 ==> {
            &&& argb[4 * i + 1] == 0
            &&& argb[4 * i + 2] == 0
            &&& argb[4 * i + 3] == 0
        }
    }
}

/// The straight color of pixel `i` is its own color when opaque and black
/// when fully transparent.
pub open spec fn color_extremes(rgba: Seq<u8>, i: int) -> bool {
    &&& rgba[4 * i + 3] == 255 ==> pixel_color(rgba, i) == (rgba[4 * i], rgba[4 * i + 1], rgba[4 * i + 2])
    &&& rgba[4 * i + 3] == 0 ==> pixel_color(rgba, i) == (0u8, 0u8, 0u8)
}

/// The tray's ARGB32 pixels (network byte order: A, R, G, B, unpremultiplied)
/// from premultiplied RGBA pixels.
pub fn argb_from_premultiplied(rgba: &[u8]) -> (out: Vec<u8>)
    requires
        premultiplied(rgba@),
    ensures
        argb_of(rgba@, out@),
        extremes_exact(rgba@, out@),
{
    let mut out: Vec<u8> = Vec::new();
    let mut j: usize = 0;
    let ghost mut i: int = 0;
    while rgba.len() - j >= 4
        invariant
            premultiplied(rgba@),
            j == 4 * i,
            j <= rgba@.len(),
            out@.len() == j,
            forall|k: int| 0 <= k < i ==> {
                &&& #[trigger] out@[4 * k] == rgba@[4 * k + 3]
                &&& out@[4 * k + 1] == pixel_color(rgba@, k).0
                &&& out@[4 * k + 2] == pixel_color(rgba@, k).1
                &&& out@[4 * k + 3] == pixel_color(rgba@, k).2
            },
            forall|k: int| 0 <= k < i ==> #[trigger] color_extremes(rgba@, k),
        decreases rgba.len() - j,
    {
        let r = rgba[j];
        let g = rgba[j + 1];
        let b = rgba[j + 2];
        let a = rgba[j + 3];
        assert(r == rgba@[4 * i] && g == rgba@[4 * i + 1] && b == rgba@[4 * i + 2] && a == rgba@[4 * i + 3]);
        proof {
            lemma_pixel_count(rgba@.len() as int, i);
            assert(i < rgba@.len() / 4) by (nonlinear_arith)
                requires
                    rgba@.len() - 4 * i >= 4,
                    i <= rgba@.len() / 4,
                    rgba@.len() % 4 == 0,
            ;
        }
        assert(rgba@[4 * i] <= rgba@[4 * i + 3]);
        let c = demultiply(r, g, b, a);
        assert(c == pixel_color(rgba@, i));
        assert(color_extremes(rgba@, i));
        let ghost before = out@;
        out.push(a);
        out.push(c.0);
        out.push(c.1);
        out.push(c.2);
        assert(out@ == before + seq![a, c.0, c.1, c.2]);
        assert forall|k: int| 0 <= k < i + 1 implies {
            &&& #[trigger] out@[4 * k] == rgba@[4 * k + 3]
            &&& out@[4 * k + 1] == pixel_color(rgba@, k).0
            &&& out@[4 * k + 2] == pixel_color(rgba@, k).1
            &&& out@[4 * k + 3] == pixel_color(rgba@, k).2
        } by {
            if k < i {
                assert(out@[4 * k] == before[4 * k]);
                assert(out@[4 * k + 1] == before[4 * k + 1]);
                assert(out@[4 * k + 2] == before[4 * k + 2]);
                assert(out@[4 * k + 3] == before[4 * k + 3]);
            } else {
                assert(k == i);
                assert(4 * k == j);
                assert(out@[4 * k] == a);
                assert(out@[4 * k + 1] == c.0);
                assert(out@[4 * k + 2] == c.1);
                assert(out@[4 * k + 3] == c.2);
            }
        }
        j = j + 4;
        proof {
            i = i + 1;
        }
    }
    proof {
        lemma_pixel_count(rgba@.len() as int, i);
        assert(rgba@.len() / 4 == i);
        assert forall|k: int| 0 <= k < rgba@.len() / 4 implies {
            &&& #[trigger] out@[4 * k] == rgba@[4 * k + 3]
            &&& out@[4 * k + 1] == pixel_color(rgba@, k).0
            &&& out@[4 * k + 2] == pixel_color(rgba@, k).1
            &&& out@[4 * k + 3] == pixel_color(rgba@, k).2
        } by {
            assert(k < i);
        }
        assert(argb_of(rgba@, out@));
        assert forall|k: int| 0 <= k < rgba@.len() / 4 implies #[trigger] color_extremes(rgba@, k) by {
            assert(k < i);
        }
        assert(extremes_exact(rgba@, out@)) by {
            assert forall|k: int| 0 <= k < rgba@.len() / 4 implies {
                &&& (#[trigger] rgba@[4 * k + 3] == 255) ==> {
                    &&& out@[4 * k + 1] == rgba@[4 * k]
                    &&& out@[4 * k + 2] == rgba@[4 * k + 1]
                    &&& out@[4 * k + 3] == rgba@[4 * k + 2]
                }
                &&& rgba@[4 * k + 3] == 0 ==> {
                    &&& out@[4 * k + 1] == 0
                    &&& out@[4 * k + 2] == 0
                    &&& out@[4 * k + 3] == 0
                }
            } by {
                assert(color_extremes(rgba@, k));
                assert(out@[4 * k] == rgba@[4 * k + 3]);
            }
        }
    }
    out
}

/// `bgra` holds the whole pixels of `rgba` reordered as B, G, R, A.
pub open spec fn bgra_of(rgba: Seq<u8>, bgra: Seq<u8>) -> bool {
    &&& bgra.len() == 4 * (rgba.len() / 4)
    &&& forall|i: int| 0 <= i < rgba.len() / 4 ==> {
        &&& #[trigger] bgra[4 * i] == rgba[4 * i + 2]
        &&& bgra[4 * i + 1] == rgba[4 * i + 1]
        &&& bgra[4 * i + 2] == rgba[4 * i]
        &&& bgra[4 * i + 3] == rgba[4 * i + 3]
    }
}

/// The Wayland buffer's pixels (ARGB8888 little-endian: B, G, R, A) from RGBA
/// pixels; a trailing partial pixel is dropped.
pub fn bgra_from_rgba(rgba: &[u8]) -> (out: Vec<u8>)
    ensures
        bgra_of(rgba@, out@),
{
    let mut out: Vec<u8> = Vec::new();
    let mut j: usize = 0;
    let ghost mut i: int = 0;
    while rgba.len() - j >= 4
        invariant
            j == 4 * i,
            j <= rgba@.len(),
            out@.len() == j,
            forall|k: int| 0 <= k < i ==> {
                &&& #[trigger] out@[4 * k] == rgba@[4 * k + 2]
                &&& out@[4 * k + 1] == rgba@[4 * k + 1]
                &&& out@[4 * k + 2] == rgba@[4 * k]
                &&& out@[4 * k + 3] == rgba@[4 * k + 3]
            },
        decreases rgba.len() - j,
    {
        let ghost before = out@;
        out.push(rgba[j + 2]);
        out.push(rgba[j + 1]);
        out.push(rgba[j]);
        out.push(rgba[j + 3]);
        assert(out@ == before + seq![rgba@[j + 2], rgba@[j + 1], rgba@[j as int], rgba@[j + 3]]);
        assert forall|k: int| 0 <= k < i + 1 implies {
            &&& #[trigger] out@[4 * k] == rgba@[4 * k + 2]
            &&& out@[4 * k + 1] == rgba@[4 * k + 1]
            &&& out@[4 * k + 2] == rgba@[4 * k]
            &&& out@[4 * k + 3] == rgba@[4 * k + 3]
        } by {
            if k < i {
                assert(out@[4 * k] == before[4 * k]);
                assert(out@[4 * k + 1] == before[4 * k + 1]);
                assert(out@[4 * k + 2] == before[4 * k + 2]);
                assert(out@[4 * k + 3] == before[4 * k + 3]);
            } else {
                assert(k == i);
                assert(out@[4 * k] == rgba@[j + 2]);
                assert(out@[4 * k + 1] == rgba@[j + 1]);
                assert(out@[4 * k + 2] == rgba@[j as int]);
                assert(out@[4 * k + 3] == rgba@[j + 3]);
            }
        }
        j = j + 4;
        proof {
            i = i + 1;
        }
    }
    proof {
        lemma_pixel_count(rgba@.len() as int, i);
    }
    out
}

/// An 8-bit RGBA color.
#[derive(Clone, Copy, PartialEq, Eq, Structural, Debug)]
pub struct Rgba {
    pub r: u8,
    pub g: u8,
    pub b: u8,
    pub a: u8,
}

/// The bird's body color: grey while the model loads, near-white otherwise.
pub fn icon_body_color(phase: Phase) -> (c: Rgba)
    ensures
        c == if phase == Phase::Loading {
            Rgba { r: 150, g: 150, b: 150, a: 255 }
        } else {
            Rgba { r: 232, g: 233, b: 240, a: 255 }
        },
{
    match phase {
        Phase::Loading => Rgba { r: 150, g: 150, b: 150, a: 255 },
        _ => Rgba { r: 232, g: 233, b: 240, a: 255 },
    }
}

/// The state badge's color: red while recording, amber while transcribing,
/// no badge otherwise.
pub fn icon_badge_color(phase: Phase) -> (c: Option<Rgba>)
    ensures
        c == match phase {
            Phase::Recording => Some(Rgba { r: 247, g: 118, b: 142, a: 255 }),
            Phase::Transcribing => Some(Rgba { r: 230, g: 175, b: 80, a: 255 }),
            _ => None,
        },
{
    match phase {
        Phase::Recording => Some(Rgba { r: 247, g: 118, b: 142, a: 255 }),
        Phase::Transcribing => Some(Rgba { r: 230, g: 175, b: 80, a: 255 }),
        _ => None,
    }
}

/// In the overlay's transcribing animation, whether dot `i` of three is the
/// enlarged one at frame `tick`: the pulse moves one dot every eight frames.
pub fn dot_enlarged(tick: u32, i: u32) -> (b: bool)
    requires
        i < 3,
    ensures
        b == ((tick / 8 + i) % 3 == 2),
{
    (tick / 8 + i) % 3 == 2
}

} // verus!

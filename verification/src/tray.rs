//! The tray icon's picture: the logo decoded and turned into the ARGB
//! pixels that the StatusNotifierItem protocol expects.

use vstd::prelude::*;

verus! {

/// What `image` decodes from `bytes`: the width, the height and the RGBA
/// samples of the picture, or `None` when the bytes are no picture it reads.
pub uninterp spec fn decoded_rgba(bytes: Seq<u8>) -> Option<(u32, u32, Seq<u8>)>;

/// Decodes a picture into RGBA samples.
///
/// Trusted: `image::load_from_memory` followed by `to_rgba8` is a function
/// of the bytes alone; its result (dimensions and samples) is left to the
/// name `decoded_rgba`.
#[verifier::external_body]
fn decode_rgba(bytes: &[u8]) -> (r: Option<(u32, u32, Vec<u8>)>)
    ensures
        match r {
            Some((w, h, data)) => decoded_rgba(bytes@) == Some((w, h, data@)),
            None => decoded_rgba(bytes@) is None,
        },
{
    match image::load_from_memory(bytes) {
        Ok(img) => {
            let rgba = img.to_rgba8();
            let (w, h) = rgba.dimensions();
            Some((w, h, rgba.into_raw()))
        },
        Err(_) => None,
    }
}

/// The ARGB samples of RGBA samples: every complete group of four bytes
/// `r g b a` becomes `a r g b`; an incomplete group at the end is dropped.
pub open spec fn argb_of(rgba: Seq<u8>) -> Seq<u8> {
    Seq::new(
        (rgba.len() / 4 * 4) as nat,
        |i: int| rgba[i / 4 * 4 + (i % 4 + 3) % 4],
    )
}

/// Reorders RGBA samples into ARGB samples.
pub fn rgba_to_argb(rgba: &[u8]) -> (r: Vec<u8>)
    ensures
        r@ == argb_of(rgba@),
{
    let groups = rgba.len() / 4;
    let mut out: Vec<u8> = Vec::new();
    let mut g: usize = 0;
    while g < groups
        invariant
            groups == rgba@.len() / 4,
            4 * groups <= rgba.len(),
            g <= groups,
            out@.len() == 4 * g,
            forall|i: int| 0 <= i < 4 * g ==> out@[i] == rgba@[i / 4 * 4 + (i % 4 + 3) % 4],
        decreases groups - g,
    {
        let base = 4 * g;
        out.push(rgba[base + 3]);
        out.push(rgba[base]);
        out.push(rgba[base + 1]);
        out.push(rgba[base + 2]);
        g = g + 1;
    }
    assert(out@ =~= argb_of(rgba@));
    out
}

/// A tray icon picture.
#[derive(Clone, Debug)]
pub struct Pixmap {
    pub width: i32,
    pub height: i32,
    /// ARGB samples, row by row.
    pub argb: Vec<u8>,
}

/// The tray icon made from the logo, or `None` when the logo cannot be
/// decoded.
pub fn tray_pixmap(logo: &[u8]) -> (r: Option<Pixmap>)
    ensures
        match (r, decoded_rgba(logo@)) {
            (Some(p), Some((w, h, data))) => p.width == w as i32 && p.height == h as i32
                && p.argb@ == argb_of(data),
            (None, None) => true,
            _ => false,
        },
{
    match decode_rgba(logo) {
        Some((w, h, data)) => Some(
            Pixmap { width: w as i32, height: h as i32, argb: rgba_to_argb(data.as_slice()) },
        ),
        None => None,
    }
}

} // verus!

//! What AutoStart reads from an executable the pilot picked: its process name and a name to
//! show.
use vstd::prelude::*;

use crate::error::AppError;
use crate::models::ExeInfo;
use crate::paths::{exe_extension, file_name, file_stem, has_exe_extension, or_empty, path_file_name, path_file_stem};
use crate::text::owned;

verus! {

/// Checks the path and describes the executable: the process name is the file name, and the
/// name shown is the product name from its version data, else the file name without `.exe`.
/// `is_file` says whether the path names a file; `on_windows` whether the `.exe` extension is
/// required.
pub fn inspect_exe(
    exe_path: &str,
    is_file: bool,
    on_windows: bool,
    product_name: Option<String>,
    icon_base64: Option<String>,
) -> (result: Result<ExeInfo, AppError>)
    ensures
        if !is_file {
            result matches Err(AppError::ExecutableNotFound(path)) && path@ == exe_path@
        } else if on_windows && !exe_extension(exe_path@) {
            result matches Err(AppError::Validation(message)) && message@ == exe_path@
                + " is not an .exe file"@
        } else {
            result matches Ok(info) && info.process_name@ == or_empty(path_file_name(exe_path@))
                && info.product_name@ == match product_name {
                Some(name) => name@,
                None => or_empty(path_file_stem(exe_path@)),
            } && info.icon_base64.deep_view() == icon_base64.deep_view()
        },
{
    if !is_file {
        return Err(AppError::ExecutableNotFound(owned(exe_path)));
    }
    if on_windows && !has_exe_extension(exe_path) {
        return Err(AppError::Validation(owned(exe_path).concat(" is not an .exe file")));
    }
    let product_name = match product_name {
        Some(name) => name,
        None => file_stem(exe_path),
    };
    Ok(ExeInfo { process_name: file_name(exe_path), product_name, icon_base64 })
}

/// Some pixel, among the whole 4-byte pixels, has a non-zero alpha byte.
pub open spec fn has_alpha(pixels: Seq<u8>) -> bool {
    exists|k: int| 0 <= k < pixels.len() / 4 && #[trigger] pixels[4 * k + 3] != 0
}

/// `after` is `before` with every whole pixel turned from BGRA to RGBA: blue and red change
/// places, and when no pixel has alpha (a legacy icon) every pixel becomes opaque. Bytes after
/// the last whole pixel stay.
pub open spec fn bgra_as_rgba(before: Seq<u8>, after: Seq<u8>) -> bool {
    &&& after.len() == before.len()
    &&& forall|k: int|
        0 <= k < before.len() / 4 ==> {
            &&& #[trigger] after[4 * k] == before[4 * k + 2]
            &&& after[4 * k + 1] == before[4 * k + 1]
            &&& after[4 * k + 2] == before[4 * k]
            &&& after[4 * k + 3] == if has_alpha(before) {
                before[4 * k + 3]
            } else {
                255u8
            }
        }
    &&& forall|i: int| (before.len() / 4) * 4 <= i < before.len() ==> #[trigger] after[i] == before[i]
}

proof fn lemma_whole_pixel_in_bounds(len: int, c: int)
    requires
        0 <= c < len / 4,
        0 <= len,
    ensures
        4 * c + 3 < len,
{
    assert(4 * c + 3 < len) by (nonlinear_arith)
        requires
            0 <= c < len / 4,
            0 <= len,
    ;
}

/// Turns an icon's pixels from the BGRA order Windows hands out into RGBA; icons without
/// any alpha are treated as fully opaque instead of invisible.
pub fn bgra_to_rgba(pixels: &mut Vec<u8>)
    ensures
        bgra_as_rgba(old(pixels)@, final(pixels)@),
{
    let ghost before = pixels@;
    let len = pixels.len();
    let whole = len / 4;
    let mut alpha = false;
    let mut c: usize = 0;
    while c < whole
        invariant
            before == pixels@,
            len == before.len(),
            whole == before.len() / 4,
            c <= whole,
            alpha == exists|k: int| 0 <= k < c && #[trigger] before[4 * k + 3] != 0,
        decreases whole - c,
    {
        proof {
            lemma_whole_pixel_in_bounds(before.len() as int, c as int);
        }
        if pixels[4 * c + 3] != 0 {
            alpha = true;
        }
        c = c + 1;
    }
    assert(alpha == has_alpha(before));
    let mut c: usize = 0;
    while c < whole
        invariant
            pixels@.len() == before.len(),
            len == before.len(),
            whole == before.len() / 4,
            c <= whole,
            alpha == has_alpha(before),
            forall|k: int|
                0 <= k < c ==> {
                    &&& #[trigger] pixels@[4 * k] == before[4 * k + 2]
                    &&& pixels@[4 * k + 1] == before[4 * k + 1]
                    &&& pixels@[4 * k + 2] == before[4 * k]
                    &&& pixels@[4 * k + 3] == if alpha {
                        before[4 * k + 3]
                    } else {
                        255u8
                    }
                },
            forall|i: int| 4 * c <= i < before.len() ==> #[trigger] pixels@[i] == before[i],
        decreases whole - c,
    {
        proof {
            lemma_whole_pixel_in_bounds(before.len() as int, c as int);
        }
        let base = 4 * c;
        assert(pixels@[base as int] == before[base as int]);
        assert(pixels@[base + 1] == before[base + 1]);
        assert(pixels@[base + 2] == before[base + 2]);
        assert(pixels@[base + 3] == before[base + 3]);
        let ghost mid = pixels@;
        let blue = pixels[base];
        let red = pixels[base + 2];
        pixels.set(base, red);
        pixels.set(base + 2, blue);
        if !alpha {
            pixels.set(base + 3, 255);
        }
        proof {
            assert forall|k: int| 0 <= k < c + 1 implies {
                &&& #[trigger] pixels@[4 * k] == before[4 * k + 2]
                &&& pixels@[4 * k + 1] == before[4 * k + 1]
                &&& pixels@[4 * k + 2] == before[4 * k]
                &&& pixels@[4 * k + 3] == if alpha {
                    before[4 * k + 3]
                } else {
                    255u8
                }
            } by {
                if k < c {
                    assert(4 * k + 3 < base);
                    assert(pixels@[4 * k] == mid[4 * k]);
                    assert(pixels@[4 * k + 1] == mid[4 * k + 1]);
                    assert(pixels@[4 * k + 2] == mid[4 * k + 2]);
                    assert(pixels@[4 * k + 3] == mid[4 * k + 3]);
                }
            }
            assert forall|i: int| 4 * (c + 1) <= i < before.len() implies #[trigger] pixels@[i] == before[i] by {
                assert(pixels@[i] == mid[i]);
            }
        }
        c = c + 1;
    }
    assert(4 * whole == (before.len() / 4) * 4);
}

} // verus!

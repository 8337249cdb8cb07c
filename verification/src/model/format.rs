//! Model file formats, recognized by extension.
use vstd::prelude::*;
use crate::text::chars_of;

verus! {

/// The model file formats the loader reads.
#[derive(Clone, Copy, Debug, PartialEq, Eq)]
pub enum ModelFormat {
    /// Wavefront OBJ (with optional MTL materials).
    Obj,
    /// STL, binary or ASCII.
    Stl,
    /// Binary glTF.
    Glb,
}

/// ASCII lower case of `c`; other characters are unchanged.
pub open spec fn ascii_lower(c: char) -> char {
    if 'A' <= c && c <= 'Z' {
        ((c as int) + 32) as char
    } else {
        c
    }
}

/// `s` with its ASCII letters in lower case.
pub open spec fn ascii_lowercase(s: Seq<char>) -> Seq<char> {
    s.map_values(|c: char| ascii_lower(c))
}

/// The format named by a file extension, compared without regard to ASCII case.
pub open spec fn format_of_extension(extension: Option<Seq<char>>) -> Option<ModelFormat> {
    match extension {
        Some(e) => if ascii_lowercase(e) == "obj"@ {
            Some(ModelFormat::Obj)
        } else if ascii_lowercase(e) == "stl"@ {
            Some(ModelFormat::Stl)
        } else if ascii_lowercase(e) == "glb"@ {
            Some(ModelFormat::Glb)
        } else {
            None
        },
        None => None,
    }
}

fn lower(c: char) -> (r: char)
    ensures
        r == ascii_lower(c),
{
    if 'A' <= c && c <= 'Z' {
        ((c as u8) + 32) as char
    } else {
        c
    }
}

/// Whether `e`, lower-cased, is the three-letter word `a b c`.
fn lower_is(e: &Vec<char>, a: char, b: char, c: char) -> (r: bool)
    ensures
        r == (ascii_lowercase(e@) == seq![a, b, c]),
{
    if e.len() != 3 {
        assert(ascii_lowercase(e@).len() != 3);
        return false;
    }
    let r = lower(e[0]) == a && lower(e[1]) == b && lower(e[2]) == c;
    assert(r ==> ascii_lowercase(e@) =~= seq![a, b, c]);
    assert(ascii_lowercase(e@) == seq![a, b, c] ==> ascii_lowercase(e@)[0] == a && ascii_lowercase(e@)[1] == b && ascii_lowercase(e@)[2] == c);
    r
}

/// The model format for a file extension (`None` when the path has none),
/// ignoring ASCII case: `obj`, `stl` or `glb`.
pub fn model_format(extension: Option<&str>) -> (r: Option<ModelFormat>)
    ensures
        r == format_of_extension(match extension {
            Some(e) => Some(e@),
            None => None,
        }),
{
    match extension {
        None => None,
        Some(e) => {
            let chars = chars_of(e);
            proof {
                reveal_strlit("obj");
                reveal_strlit("stl");
                reveal_strlit("glb");
                assert("obj"@ =~= seq!['o', 'b', 'j']);
                assert("stl"@ =~= seq!['s', 't', 'l']);
                assert("glb"@ =~= seq!['g', 'l', 'b']);
            }
            if lower_is(&chars, 'o', 'b', 'j') {
                Some(ModelFormat::Obj)
            } else if lower_is(&chars, 's', 't', 'l') {
                Some(ModelFormat::Stl)
            } else if lower_is(&chars, 'g', 'l', 'b') {
                Some(ModelFormat::Glb)
            } else {
                None
            }
        },
    }
}

} // verus!

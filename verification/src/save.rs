//! The save format: a version number framing the project's data, and the
//! small codes by which drawing modes, shapes and line caps are stored.

use vstd::prelude::*;
use vstd::string::*;

use crate::interface::pow256;
use crate::sprite::{Cap, DrawingMode, Shape};

verus! {

/// The code of a drawing mode in a save.
pub open spec fn mode_code(mode: DrawingMode) -> u8 {
    match mode {
        DrawingMode::Cone => 1,
        DrawingMode::Freehand => 2,
        DrawingMode::Line => 3,
    }
}

/// The drawing mode a code stands for; unknown codes read as freehand.
pub open spec fn mode_of_code(code: u8) -> DrawingMode {
    if code == 1 {
        DrawingMode::Cone
    } else if code == 3 {
        DrawingMode::Line
    } else {
        DrawingMode::Freehand
    }
}

/// The code of a shape in a save.
pub open spec fn shape_code(shape: Shape) -> u8 {
    match shape {
        Shape::Ellipse => 1,
        Shape::Hexagon => 2,
        Shape::Triangle => 3,
        Shape::Rectangle => 4,
    }
}

/// The shape a code stands for; unknown codes read as a rectangle.
pub open spec fn shape_of_code(code: u8) -> Shape {
    if code == 1 {
        Shape::Ellipse
    } else if code == 2 {
        Shape::Hexagon
    } else if code == 3 {
        Shape::Triangle
    } else {
        Shape::Rectangle
    }
}

/// The code of a line cap in a save; a plain end is stored as 255.
pub open spec fn cap_code(cap: Cap) -> u8 {
    match cap {
        Cap::Arrow => 1,
        Cap::Round => 2,
        Cap::Plain => 255,
    }
}

/// The line cap a code stands for; unknown codes read as a plain end.
pub open spec fn cap_of_code(code: u8) -> Cap {
    if code == 1 {
        Cap::Arrow
    } else if code == 2 {
        Cap::Round
    } else {
        Cap::Plain
    }
}

pub fn mode_to_u8(mode: DrawingMode) -> (code: u8)
    ensures
        code == mode_code(mode),
{
    match mode {
        DrawingMode::Cone => 1,
        DrawingMode::Freehand => 2,
        DrawingMode::Line => 3,
    }
}

pub fn u8_to_mode(code: u8) -> (mode: DrawingMode)
    ensures
        mode == mode_of_code(code),
{
    match code {
        1 => DrawingMode::Cone,
        2 => DrawingMode::Freehand,
        3 => DrawingMode::Line,
        _ => DrawingMode::Freehand,
    }
}

pub fn shape_to_u8(shape: Shape) -> (code: u8)
    ensures
        code == shape_code(shape),
{
    match shape {
        Shape::Ellipse => 1,
        Shape::Hexagon => 2,
        Shape::Triangle => 3,
        Shape::Rectangle => 4,
    }
}

pub fn u8_to_shape(code: u8) -> (shape: Shape)
    ensures
        shape == shape_of_code(code),
{
    match code {
        1 => Shape::Ellipse,
        2 => Shape::Hexagon,
        3 => Shape::Triangle,
        _ => Shape::Rectangle,
    }
}

pub fn cap_to_u8(cap: Cap) -> (code: u8)
    ensures
        code == cap_code(cap),
{
    match cap {
        Cap::Arrow => 1,
        Cap::Round => 2,
        Cap::Plain => 255,
    }
}

pub fn u8_to_cap(code: u8) -> (cap: Cap)
    ensures
        cap == cap_of_code(code),
{
    match code {
        1 => Cap::Arrow,
        2 => Cap::Round,
        _ => Cap::Plain,
    }
}

/// Every drawing mode, shape and cap reads back from its code as itself.
pub proof fn law_codes_round_trip(mode: DrawingMode, shape: Shape, cap: Cap)
    ensures
        mode_of_code(mode_code(mode)) == mode,
        shape_of_code(shape_code(shape)) == shape,
        cap_of_code(cap_code(cap)) == cap,
{
}

/// The unsigned number that little-endian bytes stand for.
pub open spec fn le_value(b: Seq<u8>) -> int
    decreases b.len(),
{
    if b.len() == 0 {
        0
    } else {
        b[0] + 256 * le_value(b.drop_first())
    }
}

/// The `n` little-endian bytes of `v`.
pub open spec fn le_bytes(v: nat, n: nat) -> Seq<u8>
    decreases n,
{
    if n == 0 {
        Seq::empty()
    } else {
        seq![(v % 256) as u8] + le_bytes(v / 256, (n - 1) as nat)
    }
}

/// A save as bincode lays out a version and a run of bytes: the version in
/// four little-endian bytes, the number of data bytes in eight, then the
/// data.
pub open spec fn frame_bytes(version: u32, data: Seq<u8>) -> Seq<u8> {
    le_bytes(version as nat, 4) + le_bytes(data.len(), 8) + data
}

/// The bytes hold a whole frame: its header, and as many data bytes as the
/// header counts. Bytes after the frame are ignored.
pub open spec fn frame_fits(b: Seq<u8>) -> bool {
    b.len() >= 12 && 12 + le_value(b.subrange(4, 12)) <= b.len()
}

/// The version and data of the frame that the bytes begin with.
pub open spec fn frame_parts(b: Seq<u8>) -> (u32, Seq<u8>) {
    (le_value(b.subrange(0, 4)) as u32, b.subrange(12, 12 + le_value(b.subrange(4, 12))))
}

proof fn lemma_le_bytes(v: nat, n: nat)
    requires
        v < pow256(n),
    ensures
        le_bytes(v, n).len() == n,
        le_value(le_bytes(v, n)) == v,
    decreases n,
{
    if n == 0 {
        assert(v == 0);
    } else {
        let p = pow256((n - 1) as nat);
        assert(v / 256 < p) by (nonlinear_arith)
            requires
                v < 256 * p,
                p >= 1,
        ;
        lemma_pow256_positive((n - 1) as nat);
        lemma_le_bytes(v / 256, (n - 1) as nat);
        let b = le_bytes(v, n);
        assert(b.drop_first() =~= le_bytes(v / 256, (n - 1) as nat));
        assert(v == v % 256 + 256 * (v / 256)) by (nonlinear_arith);
    }
}

proof fn lemma_pow256_positive(n: nat)
    ensures
        pow256(n) >= 1,
    decreases n,
{
    if n > 0 {
        lemma_pow256_positive((n - 1) as nat);
    }
}

/// A framed save reads back as the version and data it was made from.
pub proof fn law_frame_round_trip(version: u32, data: Seq<u8>)
    requires
        data.len() <= u64::MAX,
    ensures
        frame_fits(frame_bytes(version, data)),
        frame_parts(frame_bytes(version, data)) == (version, data),
{
    reveal_with_fuel(pow256, 9);
    lemma_le_bytes(version as nat, 4);
    lemma_le_bytes(data.len(), 8);
    let a = le_bytes(version as nat, 4);
    let l = le_bytes(data.len(), 8);
    let b = frame_bytes(version, data);
    assert(b.subrange(0, 4) =~= a);
    assert(b.subrange(4, 12) =~= l);
    assert(b.subrange(12, 12 + data.len() as int) =~= data);
}

#[verifier::external_type_specification]
#[verifier::external_body]
pub struct ExBincodeErrorKind(bincode::ErrorKind);

/// Calls `bincode::serialize` on the pair of a version and a run of bytes.
/// With its default options bincode writes fixed-size little-endian
/// integers and a sequence as its length in eight bytes followed by its
/// items; writing into a vector cannot fail, and no size limit is set.
#[verifier::external_body]
fn encode_frame(version: u32, data: &Vec<u8>) -> (r: Vec<u8>)
    ensures
        r@ == frame_bytes(version, data@),
{
    bincode::serialize(&(version, data)).unwrap_or_default()
}

/// Calls `bincode::deserialize` for a pair of a version and a run of bytes.
/// It succeeds exactly when the bytes hold a whole frame; bytes after it
/// are allowed by the default options.
#[verifier::external_body]
fn decode_frame(bytes: &[u8]) -> (r: Result<(u32, Vec<u8>), Box<bincode::ErrorKind>>)
    ensures
        match r {
            Ok((v, d)) => frame_fits(bytes@) && (v, d@) == frame_parts(bytes@),
            Err(_) => !frame_fits(bytes@),
        },
{
    bincode::deserialize::<(u32, Vec<u8>)>(bytes)
}

/// Describes a bincode error, as its `Debug` form does.
#[verifier::external_body]
fn describe_error(e: &bincode::ErrorKind) -> (s: String) {
    format!("{e:?}")
}

/// The decimal digits of a number.
pub open spec fn decimal(v: nat) -> Seq<char>
    decreases v,
{
    if v < 10 {
        seq![digit_char(v)]
    } else {
        decimal(v / 10) + seq![digit_char(v % 10)]
    }
}

pub open spec fn digit_char(d: nat) -> char {
    if d == 0 {
        '0'
    } else if d == 1 {
        '1'
    } else if d == 2 {
        '2'
    } else if d == 3 {
        '3'
    } else if d == 4 {
        '4'
    } else if d == 5 {
        '5'
    } else if d == 6 {
        '6'
    } else if d == 7 {
        '7'
    } else if d == 8 {
        '8'
    } else {
        '9'
    }
}

fn digit_str(d: u32) -> (s: &'static str)
    requires
        d < 10,
    ensures
        s@ == seq![digit_char(d as nat)],
{
    proof {
        reveal_strlit("0");
        reveal_strlit("1");
        reveal_strlit("2");
        reveal_strlit("3");
        reveal_strlit("4");
        reveal_strlit("5");
        reveal_strlit("6");
        reveal_strlit("7");
        reveal_strlit("8");
        reveal_strlit("9");
    }
    if d == 0 {
        "0"
    } else if d == 1 {
        "1"
    } else if d == 2 {
        "2"
    } else if d == 3 {
        "3"
    } else if d == 4 {
        "4"
    } else if d == 5 {
        "5"
    } else if d == 6 {
        "6"
    } else if d == 7 {
        "7"
    } else if d == 8 {
        "8"
    } else {
        "9"
    }
}

/// Appends the decimal digits of `v`.
fn append_decimal(s: &mut String, v: u32)
    ensures
        final(s)@ == old(s)@ + decimal(v as nat),
    decreases v,
{
    if v >= 10 {
        append_decimal(s, v / 10);
    }
    s.append(digit_str(v % 10));
    proof {
        assert(final(s)@ =~= old(s)@ + decimal(v as nat));
    }
}

/// The message for a save whose version is unknown and whose data does not
/// read as the one known version either.
pub open spec fn unknown_version_message(version: u32) -> Seq<char> {
    "Unknown serialisation version: "@ + decimal(version as nat)
}

/// What loading gives once the save's data has been read: for version 1,
/// that reading; for another version the reading too when it worked (the
/// version may just be wrong), and an error naming the version when it did
/// not.
pub fn resolve_version<P>(version: u32, retrieved: Result<P, String>) -> (r: Result<P, String>)
    ensures
        version == 1 ==> r == retrieved,
        version != 1 ==> match retrieved {
            Ok(p) => r == Ok::<P, String>(p),
            Err(_) => r matches Err(msg) && msg@ == unknown_version_message(version),
        },
{
    if version == 1 {
        retrieved
    } else {
        match retrieved {
            Ok(p) => Ok(p),
            Err(_) => {
                let mut msg = "Unknown serialisation version: ".to_owned();
                append_decimal(&mut msg, version);
                Err(msg)
            },
        }
    }
}

/// Frames a project's data as a save of the given version.
pub fn serialise_frame(version: u32, data: &Vec<u8>) -> (bytes: Vec<u8>)
    ensures
        bytes@ == frame_bytes(version, data@),
{
    encode_frame(version, data)
}

/// Loads a save: reads its frame, then its data with `retrieve`, and
/// settles the version as `resolve_version` does. Bytes that hold no frame
/// give an error that starts "Deserialisation failed, error: ".
pub fn deserialise<P, F: Fn(&[u8]) -> Result<P, String>>(data: &[u8], retrieve: F) -> (r: Result<P, String>)
    requires
        forall|d: &[u8]| retrieve.requires((d,)),
    ensures
        !frame_fits(data@) ==> (r matches Err(msg) && msg@.len() >= 31 && msg@.subrange(0, 31)
            == "Deserialisation failed, error: "@),
        frame_fits(data@) ==> exists|d: &[u8], got: Result<P, String>|
            {
                &&& d@ == frame_parts(data@).1
                &&& #[trigger] retrieve.ensures((d,), got)
                &&& (frame_parts(data@).0 == 1 ==> r == got)
                &&& (frame_parts(data@).0 != 1 ==> match got {
                    Ok(p) => r == Ok::<P, String>(p),
                    Err(_) => r matches Err(msg) && msg@ == unknown_version_message(
                        frame_parts(data@).0,
                    ),
                })
            },
{
    match decode_frame(data) {
        Err(e) => {
            let mut msg = "Deserialisation failed, error: ".to_owned();
            let detail = describe_error(&e);
            msg.append(detail.as_str());
            proof {
                reveal_strlit("Deserialisation failed, error: ");
                assert(msg@.subrange(0, 31) =~= "Deserialisation failed, error: "@);
            }
            Err(msg)
        },
        Ok((version, bytes)) => {
            let got = retrieve(bytes.as_slice());
            resolve_version(version, got)
        },
    }
}

} // verus!

//! What a demux call is asked for, and the array that it fills.

use crate::backends::nexrad::decode::messages::msg31::header::{
    PTR_CFP, PTR_PHI, PTR_REF, PTR_RHO, PTR_SW, PTR_VEL, PTR_ZDR,
};
use crate::backends::nexrad::decode::messages::msg31::{msg31_outcome, slot_label};
use crate::backends::nexrad::decode::model::{moment_at, radial_at_msg31};
use crate::backends::nexrad::decode::products::Product;
use crate::backends::nexrad::mapping::odim_name;
use crate::errors::{MomentEncodingError, MomentSelector, RadishError, TargetEncoding};
use crate::text::{
    ascii_uppercase_text, ascii_uppercased, is_white_space, padding_is_trimmed, push_text,
    quote_text, quoted, same_text, trim_text, trimmed_end, trimmed_start,
};
use vstd::arithmetic::power2::{lemma2_to64, pow2};
use vstd::prelude::*;

verus! {

/// Every moment, in pointer order.
pub open spec fn all_moments() -> Seq<MomentSelector> {
    seq![
        MomentSelector::Ref,
        MomentSelector::Vel,
        MomentSelector::Sw,
        MomentSelector::Zdr,
        MomentSelector::Phi,
        MomentSelector::Rho,
        MomentSelector::Cfp,
    ]
}

impl MomentSelector {
    /// Every moment, in pointer order.
    pub fn all() -> (a: [MomentSelector; 7])
        ensures
            a@ == all_moments(),
    {
        let a = [
            MomentSelector::Ref,
            MomentSelector::Vel,
            MomentSelector::Sw,
            MomentSelector::Zdr,
            MomentSelector::Phi,
            MomentSelector::Rho,
            MomentSelector::Cfp,
        ];
        assert(a@ =~= all_moments());
        a
    }

    /// The short name.
    pub open spec fn short_name(self) -> Seq<char> {
        match self {
            MomentSelector::Ref => "REF"@,
            MomentSelector::Vel => "VEL"@,
            MomentSelector::Sw => "SW"@,
            MomentSelector::Zdr => "ZDR"@,
            MomentSelector::Phi => "PHI"@,
            MomentSelector::Rho => "RHO"@,
            MomentSelector::Cfp => "CFP"@,
        }
    }

    /// The short name (`"REF"`, `"VEL"`, ...).
    pub fn name(self) -> (s: &'static str)
        ensures
            s@ == self.short_name(),
    {
        match self {
            MomentSelector::Ref => "REF",
            MomentSelector::Vel => "VEL",
            MomentSelector::Sw => "SW",
            MomentSelector::Zdr => "ZDR",
            MomentSelector::Phi => "PHI",
            MomentSelector::Rho => "RHO",
            MomentSelector::Cfp => "CFP",
        }
    }

    /// The pointer slot that stands for the moment.
    pub open spec fn slot(self) -> int {
        match self {
            MomentSelector::Ref => PTR_REF as int,
            MomentSelector::Vel => PTR_VEL as int,
            MomentSelector::Sw => PTR_SW as int,
            MomentSelector::Zdr => PTR_ZDR as int,
            MomentSelector::Phi => PTR_PHI as int,
            MomentSelector::Rho => PTR_RHO as int,
            MomentSelector::Cfp => PTR_CFP as int,
        }
    }
}

/// The moment of a short name, by NEXRAD's names or ODIM's.
pub open spec fn named_moment(name: Seq<char>) -> Option<MomentSelector> {
    if name == "REF"@ || name == "DBZH"@ {
        Some(MomentSelector::Ref)
    } else if name == "VEL"@ || name == "VRADH"@ {
        Some(MomentSelector::Vel)
    } else if name == "SW"@ || name == "WRADH"@ {
        Some(MomentSelector::Sw)
    } else if name == "ZDR"@ {
        Some(MomentSelector::Zdr)
    } else if name == "PHI"@ || name == "PHIDP"@ {
        Some(MomentSelector::Phi)
    } else if name == "RHO"@ || name == "RHOHV"@ {
        Some(MomentSelector::Rho)
    } else if name == "CFP"@ || name == "CCORH"@ {
        Some(MomentSelector::Cfp)
    } else {
        None
    }
}

/// A name as it is looked up: without white space around it, in capitals.
pub open spec fn lookup_name(s: Seq<char>) -> Seq<char> {
    ascii_uppercased(trimmed_end(trimmed_start(s)))
}

fn moment_of_name(name: &str) -> (m: Option<MomentSelector>)
    ensures
        m == named_moment(name@),
{
    if same_text(name, "REF") || same_text(name, "DBZH") {
        Some(MomentSelector::Ref)
    } else if same_text(name, "VEL") || same_text(name, "VRADH") {
        Some(MomentSelector::Vel)
    } else if same_text(name, "SW") || same_text(name, "WRADH") {
        Some(MomentSelector::Sw)
    } else if same_text(name, "ZDR") {
        Some(MomentSelector::Zdr)
    } else if same_text(name, "PHI") || same_text(name, "PHIDP") {
        Some(MomentSelector::Phi)
    } else if same_text(name, "RHO") || same_text(name, "RHOHV") {
        Some(MomentSelector::Rho)
    } else if same_text(name, "CFP") || same_text(name, "CCORH") {
        Some(MomentSelector::Cfp)
    } else {
        None
    }
}

impl MomentSelector {
    /// The moment of a name; white space around it and ASCII case do not
    /// matter.
    pub fn from_name(s: &str) -> (r: Result<Self, RadishError>)
        ensures
            match r {
                Ok(m) => named_moment(lookup_name(s@)) == Some(m),
                Err(e) => {
                    &&& named_moment(lookup_name(s@)) is None
                    &&& e matches RadishError::Unsupported(text) && text@
                        == "unknown NEXRAD moment "@ + quoted(lookup_name(s@))
                        + "; expected one of REF, VEL, SW, ZDR, PHI, RHO, CFP"@
                },
            },
    {
        let name = ascii_uppercase_text(trim_text(s));
        match moment_of_name(name.as_str()) {
            Some(m) => Ok(m),
            None => {
                let mut text = "unknown NEXRAD moment ".to_owned();
                push_text(&mut text, quote_text(name.as_str()).as_str());
                push_text(&mut text, "; expected one of REF, VEL, SW, ZDR, PHI, RHO, CFP");
                Err(RadishError::Unsupported(text))
            },
        }
    }
}

impl std::str::FromStr for MomentSelector {
    type Err = RadishError;

    /// See [`MomentSelector::from_name`].
    fn from_str(s: &str) -> (r: Result<Self, RadishError>)
        ensures
            match r {
                Ok(m) => named_moment(lookup_name(s@)) == Some(m),
                Err(e) => {
                    &&& named_moment(lookup_name(s@)) is None
                    &&& e matches RadishError::Unsupported(text) && text@
                        == "unknown NEXRAD moment "@ + quoted(lookup_name(s@))
                        + "; expected one of REF, VEL, SW, ZDR, PHI, RHO, CFP"@
                },
            },
    {
        MomentSelector::from_name(s)
    }
}

/// Width of the raw words in the output array.
#[derive(Debug, Clone, Copy, PartialEq, Eq, Structural)]
pub enum OutputWord {
    U8,
    U16,
}

impl OutputWord {
    /// Bit width.
    pub open spec fn width(self) -> u8 {
        match self {
            OutputWord::U8 => 8,
            OutputWord::U16 => 16,
        }
    }

    /// Largest value of this width.
    pub open spec fn largest(self) -> int {
        match self {
            OutputWord::U8 => 0xFF,
            OutputWord::U16 => 0xFFFF,
        }
    }

    /// Bit width.
    pub fn bits(self) -> (n: u8)
        ensures
            n == self.width(),
    {
        match self {
            OutputWord::U8 => 8,
            OutputWord::U16 => 16,
        }
    }

    /// Largest value of this width.
    pub fn max_value(self) -> (n: u32)
        ensures
            n == self.largest(),
    {
        match self {
            OutputWord::U8 => 0xFF,
            OutputWord::U16 => 0xFFFF,
        }
    }
}

/// Why a numpy dtype is not that of an output array.
#[derive(Debug, Clone, Copy, PartialEq, Eq, Structural)]
pub enum DtypeRefusal {
    /// Its byte order is not the machine's.
    ByteOrder,
    /// It is not an unsigned integer of one or two bytes.
    Kind,
}

/// The word of a numpy dtype, by its `kind`, `itemsize` and `byteorder`.
pub open spec fn dtype_word(kind: Seq<char>, itemsize: int, byteorder: Seq<char>) -> Result<
    OutputWord,
    DtypeRefusal,
> {
    if byteorder != "="@ && byteorder != "|"@ {
        Err(DtypeRefusal::ByteOrder)
    } else if kind == "u"@ && itemsize == 1 {
        Ok(OutputWord::U8)
    } else if kind == "u"@ && itemsize == 2 {
        Ok(OutputWord::U16)
    } else {
        Err(DtypeRefusal::Kind)
    }
}

impl OutputWord {
    /// The word of a numpy dtype. Words are delivered in the machine's byte
    /// order, so any other is refused rather than ignored; numpy reports `=`
    /// for the machine's order and `|` where there is none.
    pub fn from_dtype(kind: &str, itemsize: usize, byteorder: &str) -> (r: Result<
        Self,
        DtypeRefusal,
    >)
        ensures
            r == dtype_word(kind@, itemsize as int, byteorder@),
    {
        if !same_text(byteorder, "=") && !same_text(byteorder, "|") {
            return Err(DtypeRefusal::ByteOrder);
        }
        if same_text(kind, "u") && itemsize == 1 {
            Ok(OutputWord::U8)
        } else if same_text(kind, "u") && itemsize == 2 {
            Ok(OutputWord::U16)
        } else {
            Err(DtypeRefusal::Kind)
        }
    }
}

/// A scale was given without an offset, or an offset without a scale.
#[derive(Debug, Clone, Copy, PartialEq, Eq, Structural)]
pub struct UnpairedTarget;

/// The target grid of an optional scale and an optional offset, if they are given
/// together.
pub open spec fn paired_target(scale: Option<u32>, offset: Option<u32>) -> Result<
    Option<TargetEncoding>,
    UnpairedTarget,
> {
    match (scale, offset) {
        (None, None) => Ok(None),
        (Some(scale), Some(offset)) => Ok(Some(TargetEncoding { scale, offset })),
        _ => Err(UnpairedTarget),
    }
}

impl TargetEncoding {
    /// The target grid of an optional scale and an optional offset, which must
    /// be given together.
    pub fn paired(scale: Option<u32>, offset: Option<u32>) -> (r: Result<
        Option<Self>,
        UnpairedTarget,
    >)
        ensures
            r == paired_target(scale, offset),
    {
        match (scale, offset) {
            (None, None) => Ok(None),
            (Some(scale), Some(offset)) => Ok(Some(TargetEncoding { scale, offset })),
            _ => Err(UnpairedTarget),
        }
    }
}

impl TargetEncoding {
    /// A target grid from the bit patterns of its scale and offset.
    pub fn new(scale: u32, offset: u32) -> (t: Self)
        ensures
            t == (TargetEncoding { scale, offset }),
    {
        TargetEncoding { scale, offset }
    }
}

/// Everything a demux call needs beyond the bytes.
#[derive(Debug, Clone, Copy, PartialEq, Eq)]
#[non_exhaustive]
pub struct DemuxOptions {
    pub moment: MomentSelector,
    /// Rows of the output array.
    pub rays: usize,
    /// Columns of the output array.
    pub gates: usize,
    pub word: OutputWord,
    /// Value for rows without data.
    pub fill_value: u16,
    /// Target grid; without one, every block must be of the output's width.
    pub target: Option<TargetEncoding>,
}

/// Ceiling on the element count of one output array.
pub const MAX_OUTPUT_ELEMENTS: usize = 0x4000_0000;

/// Largest gate count that the wire format can express.
pub const MAX_GATE_COLUMNS: usize = 0xFFFF;

/// What is wrong with the shape or the fill value, if anything.
pub open spec fn validation_error(o: DemuxOptions) -> Option<MomentEncodingError> {
    if o.gates == 0 {
        Some(MomentEncodingError::NoGates)
    } else if o.fill_value > o.word.largest() {
        Some(
            MomentEncodingError::FillTooWide {
                fill_value: o.fill_value,
                word_size: o.word.width(),
            },
        )
    } else if o.gates > MAX_GATE_COLUMNS {
        Some(MomentEncodingError::TooManyColumns { gates: o.gates })
    } else if o.rays * o.gates > usize::MAX {
        Some(MomentEncodingError::ShapeOverflow { rays: o.rays, gates: o.gates })
    } else if o.rays * o.gates > MAX_OUTPUT_ELEMENTS {
        Some(
            MomentEncodingError::ShapeTooLarge {
                rays: o.rays,
                gates: o.gates,
                elements: (o.rays * o.gates) as usize,
            },
        )
    } else {
        None
    }
}

impl DemuxOptions {
    /// Options for `moment` in an array of `out_shape` = `(rays, gates)` words.
    /// The fill value is 0 and there is no target grid.
    pub fn new(moment: MomentSelector, out_shape: (usize, usize), word: OutputWord) -> (o: Self)
        ensures
            o == (DemuxOptions {
                moment,
                rays: out_shape.0,
                gates: out_shape.1,
                word,
                fill_value: 0,
                target: None,
            }),
    {
        let (rays, gates): (usize, usize) = out_shape;
        DemuxOptions { moment, rays, gates, word, fill_value: 0, target: None }
    }

    /// Check the shape and the fill value.
    pub fn validate(&self) -> (r: Result<(), RadishError>)
        ensures
            match r {
                Ok(_) => validation_error(*self) is None,
                Err(e) => e matches RadishError::MomentEncoding(x) && validation_error(*self)
                    == Some(x),
            },
    {
        if self.gates == 0 {
            return Err(RadishError::MomentEncoding(MomentEncodingError::NoGates));
        }
        if self.fill_value as u32 > self.word.max_value() {
            return Err(
                RadishError::MomentEncoding(
                    MomentEncodingError::FillTooWide {
                        fill_value: self.fill_value,
                        word_size: self.word.bits(),
                    },
                ),
            );
        }
        if self.gates > MAX_GATE_COLUMNS {
            return Err(
                RadishError::MomentEncoding(
                    MomentEncodingError::TooManyColumns { gates: self.gates },
                ),
            );
        }
        let elements: usize = match self.rays.checked_mul(self.gates) {
            Some(n) => n,
            None => {
                return Err(
                    RadishError::MomentEncoding(
                        MomentEncodingError::ShapeOverflow { rays: self.rays, gates: self.gates },
                    ),
                );
            },
        };
        if elements > MAX_OUTPUT_ELEMENTS {
            return Err(
                RadishError::MomentEncoding(
                    MomentEncodingError::ShapeTooLarge {
                        rays: self.rays,
                        gates: self.gates,
                        elements,
                    },
                ),
            );
        }
        Ok(())
    }

    /// Check that the output has rows for so many radials.
    pub fn check_rows_fit(&self, rows: usize) -> (r: Result<(), RadishError>)
        ensures
            match r {
                Ok(_) => rows <= self.rays,
                Err(e) => {
                    &&& rows > self.rays
                    &&& e matches RadishError::MomentEncoding(x) && x
                        == (MomentEncodingError::TooManyRadials { rows, rays: self.rays })
                },
            },
    {
        if rows > self.rays {
            return Err(
                RadishError::MomentEncoding(
                    MomentEncodingError::TooManyRadials { rows, rays: self.rays },
                ),
            );
        }
        Ok(())
    }
}

/// A demultiplexed moment: row-major raw words of the requested width.
#[derive(Debug, Clone, PartialEq, Eq)]
pub enum RawMoment {
    U8(Vec<u8>),
    U16(Vec<u16>),
}

impl RawMoment {
    /// The words.
    pub open spec fn words(&self) -> Seq<int> {
        match self {
            RawMoment::U8(v) => v@.map_values(|x: u8| x as int),
            RawMoment::U16(v) => v@.map_values(|x: u16| x as int),
        }
    }

    /// Their width.
    pub open spec fn word(&self) -> OutputWord {
        match self {
            RawMoment::U8(_) => OutputWord::U8,
            RawMoment::U16(_) => OutputWord::U16,
        }
    }

    /// Number of words.
    pub fn len(&self) -> (n: usize)
        ensures
            n == self.words().len(),
    {
        match self {
            RawMoment::U8(v) => v.len(),
            RawMoment::U16(v) => v.len(),
        }
    }

    /// Whether there are no words.
    pub fn is_empty(&self) -> (b: bool)
        ensures
            b == (self.words().len() == 0),
    {
        self.len() == 0
    }

    /// `len` words of value `fill`. The only failure is that the memory is not
    /// to be had; none is needed for no words.
    pub fn filled(word: OutputWord, len: usize, fill: u16) -> (r: Result<Self, RadishError>)
        requires
            fill <= word.largest(),
        ensures
            match r {
                Ok(m) => {
                    &&& m.word() == word
                    &&& m.words() == Seq::new(len as nat, |i: int| fill as int)
                },
                Err(e) => is_allocation_failure(e, len as int, word),
            },
            len == 0 ==> r is Ok,
    {
        match word {
            OutputWord::U8 => {
                let mut v: Vec<u8> = Vec::new();
                if len > 0 && v.try_reserve(len).is_err() {
                    return Err(
                        RadishError::MomentEncoding(
                            MomentEncodingError::Allocation { len, word_size: 8 },
                        ),
                    );
                }
                v.resize(len, fill as u8);
                let m = RawMoment::U8(v);
                assert(m.words() =~= Seq::new(len as nat, |i: int| fill as int));
                Ok(m)
            },
            OutputWord::U16 => {
                let mut v: Vec<u16> = Vec::new();
                if len > 0 && v.try_reserve(len).is_err() {
                    return Err(
                        RadishError::MomentEncoding(
                            MomentEncodingError::Allocation { len, word_size: 16 },
                        ),
                    );
                }
                v.resize(len, fill);
                let m = RawMoment::U16(v);
                assert(m.words() =~= Seq::new(len as nat, |i: int| fill as int));
                Ok(m)
            },
        }
    }

    /// Word `i`.
    pub fn get(&self, i: usize) -> (v: u32)
        requires
            i < self.words().len(),
        ensures
            v == self.words()[i as int],
            v <= self.word().largest(),
    {
        match self {
            RawMoment::U8(v) => v[i] as u32,
            RawMoment::U16(v) => v[i] as u32,
        }
    }

    /// Replace word `i`.
    pub fn set(&mut self, i: usize, value: u32)
        requires
            i < old(self).words().len(),
            value <= old(self).word().largest(),
        ensures
            final(self).word() == old(self).word(),
            final(self).words() == old(self).words().update(i as int, value as int),
    {
        let ghost before = *self;
        match self {
            RawMoment::U8(v) => {
                v[i] = value as u8;
            },
            RawMoment::U16(v) => {
                v[i] = value as u16;
            },
        }
        assert(self.words() =~= before.words().update(i as int, value as int));
    }
}

/// `e` says that the memory for `len` words, at least one, is not to be had.
pub open spec fn is_allocation_failure(e: RadishError, len: int, word: OutputWord) -> bool {
    &&& len > 0
    &&& e matches RadishError::MomentEncoding(x) && x == (MomentEncodingError::Allocation {
        len: len as usize,
        word_size: word.width(),
    })
}

/// The short name of a moment is the label of its pointer slot.
pub proof fn short_names_are_the_slot_labels(m: MomentSelector)
    ensures
        m.short_name() == slot_label(m.slot())@,
        3 <= m.slot() <= 9,
{
}

/// A moment is found by its short name, and a product by its ODIM name: what is
/// found is what the product's block in a radial is found by.
pub proof fn moments_are_found_by_either_name(m: MomentSelector, p: Product, body: Seq<u8>)
    ensures
        named_moment(m.short_name()) == Some(m),
        named_moment(odim_name(p)@) is Some,
        p.block(radial_at_msg31(body)) == moment_at(
            body,
            msg31_outcome(body, 0, 0)->Ok_0.0,
            named_moment(odim_name(p)@)->0.slot(),
        ),
{
    lemma_moment_names();
}

/// A name that stands for a moment is its short name or the ODIM name of the
/// product with the same block.
pub proof fn no_other_name_stands_for_a_moment(name: Seq<char>)
    ensures
        named_moment(name) matches Some(m) ==> name == m.short_name() || exists|p: Product|
            name == (#[trigger] odim_name(p))@,
{
    if let Some(m) = named_moment(name) {
        if name != m.short_name() {
            let p = match m {
                MomentSelector::Ref => Product::Reflectivity,
                MomentSelector::Vel => Product::Velocity,
                MomentSelector::Sw => Product::SpectrumWidth,
                MomentSelector::Zdr => Product::DifferentialReflectivity,
                MomentSelector::Phi => Product::DifferentialPhase,
                MomentSelector::Rho => Product::CorrelationCoefficient,
                MomentSelector::Cfp => Product::ClutterFilterPower,
            };
            assert(name == odim_name(p)@);
        }
    }
}

proof fn lemma_moment_names()
    ensures
        forall|m: MomentSelector| named_moment(#[trigger] m.short_name()) == Some(m),
        named_moment("DBZH"@) == Some(MomentSelector::Ref),
        named_moment("VRADH"@) == Some(MomentSelector::Vel),
        named_moment("WRADH"@) == Some(MomentSelector::Sw),
        named_moment("ZDR"@) == Some(MomentSelector::Zdr),
        named_moment("PHIDP"@) == Some(MomentSelector::Phi),
        named_moment("RHOHV"@) == Some(MomentSelector::Rho),
        named_moment("CCORH"@) == Some(MomentSelector::Cfp),
{
    reveal_strlit("REF");
    reveal_strlit("VEL");
    reveal_strlit("SW");
    reveal_strlit("ZDR");
    reveal_strlit("PHI");
    reveal_strlit("RHO");
    reveal_strlit("CFP");
    reveal_strlit("DBZH");
    reveal_strlit("VRADH");
    reveal_strlit("WRADH");
    reveal_strlit("PHIDP");
    reveal_strlit("RHOHV");
    reveal_strlit("CCORH");
    assert("REF"@.len() == 3 && "REF"@[0] == 'R' && "REF"@[1] == 'E');
    assert("VEL"@.len() == 3 && "VEL"@[0] == 'V');
    assert("SW"@.len() == 2);
    assert("ZDR"@.len() == 3 && "ZDR"@[0] == 'Z');
    assert("PHI"@.len() == 3 && "PHI"@[0] == 'P');
    assert("RHO"@.len() == 3 && "RHO"@[0] == 'R' && "RHO"@[1] == 'H');
    assert("CFP"@.len() == 3 && "CFP"@[0] == 'C');
    assert("DBZH"@.len() == 4);
    assert("VRADH"@.len() == 5 && "VRADH"@[0] == 'V');
    assert("WRADH"@.len() == 5 && "WRADH"@[0] == 'W');
    assert("PHIDP"@.len() == 5 && "PHIDP"@[0] == 'P');
    assert("RHOHV"@.len() == 5 && "RHOHV"@[0] == 'R');
    assert("CCORH"@.len() == 5 && "CCORH"@[0] == 'C');
}

/// A name is looked up without regard to white space around it and to the case
/// of its ASCII letters.
pub proof fn names_are_looked_up_in_any_case_and_padding(
    before: Seq<char>,
    name: Seq<char>,
    other: Seq<char>,
    behind: Seq<char>,
)
    requires
        forall|i: int| 0 <= i < before.len() ==> is_white_space(#[trigger] before[i]),
        forall|i: int| 0 <= i < behind.len() ==> is_white_space(#[trigger] behind[i]),
        name.len() > 0,
        !is_white_space(name[0]),
        !is_white_space(name.last()),
        other.len() == name.len(),
        forall|i: int|
            0 <= i < name.len() ==> (#[trigger] name[i] == other[i] || 'a' <= name[i] <= 'z'
                && other[i] as int == name[i] as int - 32),
    ensures
        lookup_name(before + name + behind) == lookup_name(other),
{
    padding_is_trimmed(before, name, behind);
    let none = Seq::<char>::empty();
    assert(!is_white_space(other[0]) && !is_white_space(other.last()));
    padding_is_trimmed(none, other, none);
    assert(none + other + none =~= other);
    assert(ascii_uppercased(name) =~= ascii_uppercased(other));
}

/// A shape is accepted if it has 1 to 65535 gates and no more than 2^30 words,
/// and a fill value if it fits the word.
pub proof fn shapes_are_bounded(o: DemuxOptions)
    ensures
        validation_error(o) is None <==> {
            &&& 1 <= o.gates <= 65535
            &&& o.rays * o.gates <= 1_073_741_824
            &&& o.word == OutputWord::U8 ==> o.fill_value <= 255
        },
        validation_error(o) == Some(MomentEncodingError::NoGates) <==> o.gates == 0,
        validation_error(o) is Some && validation_error(o)->0 is FillTooWide <==> o.gates > 0
            && o.word == OutputWord::U8 && o.fill_value > 255,
        validation_error(o) is Some && validation_error(o)->0 is TooManyColumns ==> o.gates > 65535,
        validation_error(o) is Some && validation_error(o)->0 is ShapeOverflow ==> o.rays * o.gates
            > usize::MAX,
        validation_error(o) is Some && validation_error(o)->0 is ShapeTooLarge ==> usize::MAX
            >= o.rays * o.gates > 1_073_741_824,
{
}

/// The largest word of a width is the one with all of its bits set.
pub proof fn largest_words_have_all_bits_set(w: OutputWord)
    ensures
        w.largest() + 1 == pow2(w.width() as nat),
        w.width() == 8 || w.width() == 16,
{
    lemma2_to64();
}

/// A dtype is accepted if it is an unsigned integer of one or two bytes in the
/// machine's own order, and the word has as many bits as those bytes.
pub proof fn dtypes_are_unsigned_and_native(kind: Seq<char>, itemsize: int, byteorder: Seq<char>)
    ensures
        ({
            let native = byteorder == "="@ || byteorder == "|"@;
            let r = dtype_word(kind, itemsize, byteorder);
            &&& r is Ok <==> native && kind == "u"@ && (itemsize == 1 || itemsize == 2)
            &&& r matches Ok(w) ==> w.width() == 8 * itemsize
            &&& r matches Err(e) ==> (e == DtypeRefusal::ByteOrder <==> !native)
        }),
{
}

/// What is wrong with a shape is reported with the shape itself.
pub proof fn shape_errors_hold_the_shape(o: DemuxOptions)
    ensures
        match validation_error(o) {
            Some(MomentEncodingError::FillTooWide { fill_value, word_size }) => fill_value
                == o.fill_value && word_size == 8,
            Some(MomentEncodingError::TooManyColumns { gates }) => gates == o.gates,
            Some(MomentEncodingError::ShapeOverflow { rays, gates }) => rays == o.rays && gates
                == o.gates,
            Some(MomentEncodingError::ShapeTooLarge { rays, gates, elements }) => rays == o.rays
                && gates == o.gates && elements == o.rays * o.gates,
            Some(MomentEncodingError::NoGates) => o.gates == 0,
            Some(_) => false,
            None => true,
        },
{
}

/// A target grid is given by a scale and an offset together.
pub proof fn targets_are_given_whole(scale: Option<u32>, offset: Option<u32>)
    ensures
        match paired_target(scale, offset) {
            Ok(Some(t)) => scale == Some(t.scale) && offset == Some(t.offset),
            Ok(None) => scale is None && offset is None,
            Err(_) => scale is Some != offset is Some,
        },
{
}

/// The moments are listed in the order of their pointers, from slot 3 on, and none
/// is left out.
pub proof fn moments_are_listed_in_pointer_order(m: MomentSelector, i: int)
    requires
        0 <= i < 7,
    ensures
        all_moments().len() == 7,
        all_moments()[i].slot() == 3 + i,
        all_moments().contains(m),
{
    assert(all_moments()[m.slot() - 3] == m);
}

} // verus!

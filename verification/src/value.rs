//! The typed values of MP4 tags.

use vstd::prelude::*;

verus! {

/// The format of a cover image.
#[derive(Debug, Clone, Copy, PartialEq, Eq)]
pub enum MP4CoverFormat {
    JPEG,
    PNG,
}

/// The type indicator under which a cover of the given format is stored:
/// 13 for JPEG, 14 for PNG.
pub open spec fn format_code(format: MP4CoverFormat) -> u32 {
    match format {
        MP4CoverFormat::JPEG => 13,
        MP4CoverFormat::PNG => 14,
    }
}

impl MP4CoverFormat {
    /// The type indicator under which a cover of this format is stored.
    pub fn type_indicator(self) -> (result: u32)
        ensures
            result == format_code(self),
    {
        match self {
            MP4CoverFormat::JPEG => 13,
            MP4CoverFormat::PNG => 14,
        }
    }
}

/// A cover image.
#[derive(Debug, Clone)]
pub struct MP4Cover {
    pub data: Vec<u8>,
    pub format: MP4CoverFormat,
}

/// A free-form blob with the type indicator it was stored under.
#[derive(Debug, Clone)]
pub struct MP4FreeForm {
    pub data: Vec<u8>,
    pub dataformat: u32,
}

/// The value of one tag.
#[derive(Debug, Clone)]
pub enum MP4TagValue {
    Text(Vec<String>),
    Integer(Vec<i64>),
    IntPair(Vec<(i32, i32)>),
    Bool(bool),
    Cover(Vec<MP4Cover>),
    FreeForm(Vec<MP4FreeForm>),
    Data(Vec<u8>),
}

/// A cover image as plain data.
pub struct CoverView {
    pub data: Seq<u8>,
    pub format: MP4CoverFormat,
}

/// A free-form blob as plain data.
pub struct FreeFormView {
    pub data: Seq<u8>,
    pub dataformat: u32,
}

/// A tag value as plain data.
pub enum ValueView {
    Text(Seq<Seq<char>>),
    Integer(Seq<i64>),
    IntPair(Seq<(i32, i32)>),
    Bool(bool),
    Cover(Seq<CoverView>),
    FreeForm(Seq<FreeFormView>),
    Data(Seq<u8>),
}

impl View for MP4Cover {
    type V = CoverView;

    open spec fn view(&self) -> CoverView {
        CoverView { data: self.data@, format: self.format }
    }
}

impl View for MP4FreeForm {
    type V = FreeFormView;

    open spec fn view(&self) -> FreeFormView {
        FreeFormView { data: self.data@, dataformat: self.dataformat }
    }
}

impl View for MP4TagValue {
    type V = ValueView;

    open spec fn view(&self) -> ValueView {
        match *self {
            MP4TagValue::Text(v) => ValueView::Text(v@.map_values(|s: String| s@)),
            MP4TagValue::Integer(v) => ValueView::Integer(v@),
            MP4TagValue::IntPair(v) => ValueView::IntPair(v@),
            MP4TagValue::Bool(b) => ValueView::Bool(b),
            MP4TagValue::Cover(v) => ValueView::Cover(v@.map_values(|c: MP4Cover| c@)),
            MP4TagValue::FreeForm(v) => ValueView::FreeForm(v@.map_values(|f: MP4FreeForm| f@)),
            MP4TagValue::Data(v) => ValueView::Data(v@),
        }
    }
}

/// The value that holds what `first` holds and then what `second` holds,
/// when both are lists of the same kind. Values of different kinds do not
/// merge, nor do the kinds that hold no list: `first` stays as it is.
pub open spec fn merged(first: ValueView, second: ValueView) -> ValueView {
    match (first, second) {
        (ValueView::Text(a), ValueView::Text(b)) => ValueView::Text(a + b),
        (ValueView::Integer(a), ValueView::Integer(b)) => ValueView::Integer(a + b),
        (ValueView::IntPair(a), ValueView::IntPair(b)) => ValueView::IntPair(a + b),
        (ValueView::Cover(a), ValueView::Cover(b)) => ValueView::Cover(a + b),
        (ValueView::FreeForm(a), ValueView::FreeForm(b)) => ValueView::FreeForm(a + b),
        _ => first,
    }
}

/// Merges a second value for a key into the one already there: the members
/// of `new` are appended when both values are lists of the same kind, and
/// `new` is dropped otherwise.
pub fn merge_mp4_values(existing: &mut MP4TagValue, new: MP4TagValue)
    ensures
        final(existing)@ == merged(old(existing)@, new@),
{
    match (existing, new) {
        (MP4TagValue::Text(v), MP4TagValue::Text(mut w)) => {
            let ghost a = v@;
            let ghost b = w@;
            v.append(&mut w);
            assert(v@.map_values(|s: String| s@) =~= a.map_values(|s: String| s@) + b.map_values(
                |s: String| s@,
            ));
        },
        (MP4TagValue::Integer(v), MP4TagValue::Integer(mut w)) => {
            v.append(&mut w);
        },
        (MP4TagValue::IntPair(v), MP4TagValue::IntPair(mut w)) => {
            v.append(&mut w);
        },
        (MP4TagValue::Cover(v), MP4TagValue::Cover(mut w)) => {
            let ghost a = v@;
            let ghost b = w@;
            v.append(&mut w);
            assert(v@.map_values(|c: MP4Cover| c@) =~= a.map_values(|c: MP4Cover| c@)
                + b.map_values(|c: MP4Cover| c@));
        },
        (MP4TagValue::FreeForm(v), MP4TagValue::FreeForm(mut w)) => {
            let ghost a = v@;
            let ghost b = w@;
            v.append(&mut w);
            assert(v@.map_values(|f: MP4FreeForm| f@) =~= a.map_values(|f: MP4FreeForm| f@)
                + b.map_values(|f: MP4FreeForm| f@));
        },
        _ => {},
    }
}

} // verus!

//! The descriptive fields of an image, as shown beside a measurement.
use vstd::prelude::*;
use vstd::string::StringExecFns;

verus! {

/// The text shown for a field that the image does not have.
pub open spec fn placeholder() -> Seq<char> {
    " - "@
}

/// What [`get_detail`] returns: the field's text, or the placeholder
/// where the image lacks the field or holds it empty.
pub open spec fn detail_spec(value: Option<Seq<char>>) -> Seq<char> {
    match value {
        Some(text) => if text.len() == 0 {
            placeholder()
        } else {
            text
        },
        None => placeholder(),
    }
}

/// What [`machine_label`] returns: the maker with the modality in square
/// brackets, or the placeholder where the maker is not known.
pub open spec fn machine_spec(manufacturer: Seq<char>, modality: Seq<char>) -> Seq<char> {
    if manufacturer == placeholder() {
        placeholder()
    } else {
        manufacturer + " ["@ + modality + "]"@
    }
}

/// What [`pixel_size_label`] returns: the resolution in both directions,
/// in millimetres, or the placeholder where it is not known.
pub open spec fn pixel_size_spec(resolution: Seq<char>) -> Seq<char> {
    if resolution == placeholder() {
        placeholder()
    } else {
        resolution + "x"@ + resolution + " mm"@
    }
}

/// What [`matrix_label`] returns: rows by columns, or nothing where
/// either is not known.
pub open spec fn matrix_spec(rows: Seq<char>, cols: Seq<char>) -> Seq<char> {
    if rows == placeholder() || cols == placeholder() {
        Seq::empty()
    } else {
        rows + "x"@ + cols
    }
}

/// The text of a field of the image, with a placeholder for a field that
/// is missing or empty.
pub fn get_detail(value: Option<String>) -> (text: String)
    ensures
        text@ == detail_spec(
            match value {
                Some(s) => Some(s@),
                None => None,
            },
        ),
{
    match value {
        Some(s) => {
            if s.as_str().is_empty() {
                String::from_str(" - ")
            } else {
                s
            }
        },
        None => String::from_str(" - "),
    }
}

/// Whether a text is the placeholder.
fn is_placeholder(text: &String) -> (b: bool)
    ensures
        b == (text@ == placeholder()),
{
    let mark = String::from_str(" - ");
    *text == mark
}

/// The description of the machine: maker and modality.
pub fn machine_label(manufacturer: &String, modality: &String) -> (label: String)
    ensures
        label@ == machine_spec(manufacturer@, modality@),
{
    if is_placeholder(manufacturer) {
        String::from_str(" - ")
    } else {
        let mut label = manufacturer.clone();
        label.append(" [");
        label.append(modality.as_str());
        label.append("]");
        label
    }
}

/// The description of the pixel size.
pub fn pixel_size_label(resolution: &String) -> (label: String)
    ensures
        label@ == pixel_size_spec(resolution@),
{
    if is_placeholder(resolution) {
        String::from_str(" - ")
    } else {
        let mut label = resolution.clone();
        label.append("x");
        label.append(resolution.as_str());
        label.append(" mm");
        label
    }
}

/// The description of the image matrix.
pub fn matrix_label(rows: &String, cols: &String) -> (label: String)
    ensures
        label@ == matrix_spec(rows@, cols@),
{
    if is_placeholder(rows) || is_placeholder(cols) {
        String::new()
    } else {
        let mut label = rows.clone();
        label.append("x");
        label.append(cols.as_str());
        label
    }
}

} // verus!

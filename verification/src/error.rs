//! Why an image cannot be written as a DNG file.
use vstd::prelude::*;

verus! {

/// The reasons for which no file is written.
#[derive(Debug)]
pub enum DngError {
    /// The image has no pixels.
    EmptyImage,
    /// No layout has this name, which is given without the white space around it and in lower
    /// case.
    UnknownCfaType(String),
    /// The pixels take more bytes than a 32-bit number can count.
    PixelDataTooLarge,
    /// The directory has more entries than a 16-bit number can count.
    TooManyEntries,
    /// The values of the directory reach past the positions that 32 bits can hold.
    OffsetOverflow,
}

impl DngError {
    /// The text that tells a user what went wrong.
    pub open spec fn text(self) -> Seq<char> {
        match self {
            DngError::EmptyImage => "De afbeelding heeft een breedte of hoogte van nul."@,
            DngError::UnknownCfaType(name) => "Onbekend CFA-type '"@ + name@
                + "'. Gebruik \"\", \"linear\", \"rggb\", \"bggr\", \"grbg\", \"gbrg\" of \"xtrans\"."@,
            DngError::PixelDataTooLarge => "Pixeldata is te groot voor klassieke TIFF/DNG-offsets."@,
            DngError::TooManyEntries => "Te veel IFD-entries."@,
            DngError::OffsetOverflow => "DNG-offset overflow."@,
        }
    }

    /// The text that tells a user what went wrong.
    pub fn message(&self) -> (message: String)
        ensures
            message@ == self.text(),
    {
        match self {
            DngError::EmptyImage => "De afbeelding heeft een breedte of hoogte van nul.".to_owned(),
            DngError::UnknownCfaType(name) => {
                let mut message: String = "Onbekend CFA-type '".to_owned();
                message.append(name.as_str());
                message.append(
                    "'. Gebruik \"\", \"linear\", \"rggb\", \"bggr\", \"grbg\", \"gbrg\" of \"xtrans\".",
                );
                message
            },
            DngError::PixelDataTooLarge => "Pixeldata is te groot voor klassieke TIFF/DNG-offsets.".to_owned(),
            DngError::TooManyEntries => "Te veel IFD-entries.".to_owned(),
            DngError::OffsetOverflow => "DNG-offset overflow.".to_owned(),
        }
    }
}

/// The message about an unknown name quotes it as it is, and the text around it does not depend on
/// the name: messages about two names are the same only where the names are.
pub proof fn law_message_quotes_name(a: String, b: String)
    ensures
        ({
            let first = DngError::UnknownCfaType(a).text();
            let second = DngError::UnknownCfaType(b).text();
            &&& first.len() - a@.len() == second.len() - b@.len()
            &&& 19 + a@.len() < first.len()
            &&& first.subrange(19, 19int + a@.len()) == a@
            &&& first[18] == '\''
            &&& first[19int + a@.len()] == '\''
            &&& first == second ==> a@ == b@
        }),
{
    reveal_strlit("Onbekend CFA-type '");
    reveal_strlit(
        "'. Gebruik \"\", \"linear\", \"rggb\", \"bggr\", \"grbg\", \"gbrg\" of \"xtrans\".",
    );
    let first = DngError::UnknownCfaType(a).text();
    let second = DngError::UnknownCfaType(b).text();
    assert(first.subrange(19, 19int + a@.len()) == a@);
    assert(second.subrange(19, 19int + b@.len()) == b@);
}

} // verus!

use crate::text::to_chars;
use vstd::prelude::*;
use vstd::string::*;

verus! {

/// The tag that is pulled where a reference names none.
pub const DEFAULT_TAG: &'static str = "latest";

/// What names an image: a repository and a tag in it. The repository is
/// never empty.
#[derive(Debug, Clone, PartialEq, Eq)]
pub struct ImageReference {
    pub repository: String,
    pub tag: String,
}

/// The repository and the tag that the text `repository[:tag]` names: what
/// stands before and after its last colon, or all of it and the default tag
/// where it has no colon. `None` where the repository would be empty.
pub open spec fn image_reference_spec(input: Seq<char>) -> Option<(Seq<char>, Seq<char>)> {
    let (repository, tag) = match input.index_of_last(':') {
        Some(colon) => (input.take(colon), input.skip(colon + 1)),
        None => (input, DEFAULT_TAG@),
    };
    if repository.len() > 0 {
        Some((repository, tag))
    } else {
        None
    }
}

impl ImageReference {
    /// Whether the reference is one that `parse` hands out.
    pub open spec fn well_formed(&self) -> bool {
        self.repository@.len() > 0
    }

    /// Reads an image reference of the form `repository[:tag]`.
    pub fn parse(input: &str) -> (r: Option<ImageReference>)
        ensures
            match r {
                Some(image) => image.well_formed() && image_reference_spec(input@) == Some(
                    (image.repository@, image.tag@),
                ),
                None => image_reference_spec(input@) is None,
            },
    {
        let text = to_chars(input);
        let mut colon: usize = text.len();
        while colon > 0 && text[colon - 1] != ':'
            invariant
                colon <= text.len(),
                forall|j: int| colon <= j < text.len() ==> text@[j] != ':',
            decreases colon,
        {
            colon = colon - 1;
        }
        proof {
            text@.index_of_last_ensures(':');
            if colon > 0 {
                assert(text@[colon - 1] == ':');
            }
        }
        if colon == 0 {
            if text.len() == 0 {
                return None;
            }
            proof {
                assert(input@.subrange(0, text.len() as int) =~= input@);
            }
            Some(
                ImageReference {
                    repository: String::from_str(input),
                    tag: String::from_str(DEFAULT_TAG),
                },
            )
        } else if colon == 1 {
            None
        } else {
            Some(
                ImageReference {
                    repository: String::from_str(input.substring_char(0, colon - 1)),
                    tag: String::from_str(input.substring_char(colon, text.len())),
                },
            )
        }
    }
}

} // verus!

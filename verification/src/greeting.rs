//! A greeting in the language of the user.

use crate::text::{chars_of, find_first, first_of, same_text};
use vstd::prelude::*;

verus! {

/// The language of a locale: the locale up to its first underscore.
pub open spec fn language_of(locale: Seq<char>) -> Seq<char> {
    locale.subrange(0, first_of(locale, '_'))
}

/// The greeting for a locale: in English, Czech or Spanish where the locale
/// is of that language, and in English for any other and for none.
pub open spec fn greeting_of(locale: Option<Seq<char>>) -> Seq<char> {
    match locale {
        Some(name) => if language_of(name) == "en"@ {
            "Hello, world!"@
        } else if language_of(name) == "cs"@ {
            "Ahoj světe!"@
        } else if language_of(name) == "es"@ {
            "¡Hola el mundo!"@
        } else {
            "Hello, world!"@
        },
        None => "Hello, world!"@,
    }
}

/// The greeting for the locale that the environment names, if it names one.
pub fn greeting(locale: Option<&str>) -> (r: String)
    ensures
        r@ == greeting_of(
            match locale {
                Some(name) => Some(name@),
                None => None,
            },
        ),
{
    match locale {
        Some(name) => {
            let chars = chars_of(name);
            let k: usize = find_first(chars.as_slice(), '_');
            let language = name.substring_char(0, k);
            if same_text(language, "en") {
                String::from_str("Hello, world!")
            } else if same_text(language, "cs") {
                String::from_str("Ahoj světe!")
            } else if same_text(language, "es") {
                String::from_str("¡Hola el mundo!")
            } else {
                String::from_str("Hello, world!")
            }
        },
        None => String::from_str("Hello, world!"),
    }
}

} // verus!

//! Language codes recognized by VOX and the validation errors for external
//! input.

use vstd::prelude::*;

use crate::text::chars_of;

verus! {

/// Languages VOX currently accepts, identified by ISO 639-1 code.
///
/// The set mirrors the Indian languages targeted by the speech recognizer;
/// extend deliberately as recognition/retrieval coverage grows.
#[derive(Debug, Clone, Copy, PartialEq, Eq, Hash, Structural)]
pub enum Language {
    /// Assamese (`as`)
    As,
    /// Bengali (`bn`)
    Bn,
    /// English (`en`)
    En,
    /// Gujarati (`gu`)
    Gu,
    /// Hindi (`hi`)
    Hi,
    /// Kannada (`kn`)
    Kn,
    /// Malayalam (`ml`)
    Ml,
    /// Marathi (`mr`)
    Mr,
    /// Odia (`or`)
    Or,
    /// Punjabi (`pa`)
    Pa,
    /// Tamil (`ta`)
    Ta,
    /// Telugu (`te`)
    Te,
    /// Urdu (`ur`)
    Ur,
}

/// Errors produced when validating external input against domain rules.
#[derive(Debug, Clone, PartialEq, Eq)]
pub enum CoreError {
    /// The query string is missing or only whitespace.
    EmptyQuery,
    /// `top_k` is outside the accepted range `1..=MAX_TOP_K`.
    InvalidTopK(u8),
    /// The language code is not one VOX recognizes.
    UnsupportedLanguage(String),
}

/// The ISO 639-1 code of `l` (its wire representation).
pub open spec fn code_of(l: Language) -> Seq<char> {
    match l {
        Language::As => seq!['a', 's'],
        Language::Bn => seq!['b', 'n'],
        Language::En => seq!['e', 'n'],
        Language::Gu => seq!['g', 'u'],
        Language::Hi => seq!['h', 'i'],
        Language::Kn => seq!['k', 'n'],
        Language::Ml => seq!['m', 'l'],
        Language::Mr => seq!['m', 'r'],
        Language::Or => seq!['o', 'r'],
        Language::Pa => seq!['p', 'a'],
        Language::Ta => seq!['t', 'a'],
        Language::Te => seq!['t', 'e'],
        Language::Ur => seq!['u', 'r'],
    }
}

/// The language whose code is `s`, if any.
pub open spec fn language_of_code(s: Seq<char>) -> Option<Language> {
    if s == code_of(Language::As) {
        Some(Language::As)
    } else if s == code_of(Language::Bn) {
        Some(Language::Bn)
    } else if s == code_of(Language::En) {
        Some(Language::En)
    } else if s == code_of(Language::Gu) {
        Some(Language::Gu)
    } else if s == code_of(Language::Hi) {
        Some(Language::Hi)
    } else if s == code_of(Language::Kn) {
        Some(Language::Kn)
    } else if s == code_of(Language::Ml) {
        Some(Language::Ml)
    } else if s == code_of(Language::Mr) {
        Some(Language::Mr)
    } else if s == code_of(Language::Or) {
        Some(Language::Or)
    } else if s == code_of(Language::Pa) {
        Some(Language::Pa)
    } else if s == code_of(Language::Ta) {
        Some(Language::Ta)
    } else if s == code_of(Language::Te) {
        Some(Language::Te)
    } else if s == code_of(Language::Ur) {
        Some(Language::Ur)
    } else {
        None
    }
}

/// The message a [`CoreError`] displays.
pub open spec fn core_error_message(e: CoreError) -> Seq<char> {
    match e {
        CoreError::EmptyQuery => "query must be a non-empty string"@,
        CoreError::InvalidTopK(k) => "top_k must be between 1 and 20, got "@ + crate::numfmt::padded(
            k as nat,
            10,
            1,
        ),
        CoreError::UnsupportedLanguage(v) => "unsupported language code: "@ + v@,
    }
}

impl CoreError {
    /// The human-readable message for this error.
    pub fn message(&self) -> (m: String)
        ensures
            m@ == core_error_message(*self),
    {
        match self {
            CoreError::EmptyQuery => "query must be a non-empty string".to_owned(),
            CoreError::InvalidTopK(k) => {
                let mut m = "top_k must be between 1 and 20, got ".to_owned();
                crate::numfmt::push_padded(&mut m, *k as u128, 10, 1);
                m
            },
            CoreError::UnsupportedLanguage(v) => {
                let mut m = "unsupported language code: ".to_owned();
                crate::text::push_str(&mut m, v.as_str());
                m
            },
        }
    }
}

impl Language {
    /// The ISO 639-1 code for this language (the wire representation).
    pub fn code(self) -> (s: &'static str)
        ensures
            s@ == code_of(self),
    {
        match self {
            Language::As => {
                proof {
                    reveal_strlit("as");
                }
                "as"
            },
            Language::Bn => {
                proof {
                    reveal_strlit("bn");
                }
                "bn"
            },
            Language::En => {
                proof {
                    reveal_strlit("en");
                }
                "en"
            },
            Language::Gu => {
                proof {
                    reveal_strlit("gu");
                }
                "gu"
            },
            Language::Hi => {
                proof {
                    reveal_strlit("hi");
                }
                "hi"
            },
            Language::Kn => {
                proof {
                    reveal_strlit("kn");
                }
                "kn"
            },
            Language::Ml => {
                proof {
                    reveal_strlit("ml");
                }
                "ml"
            },
            Language::Mr => {
                proof {
                    reveal_strlit("mr");
                }
                "mr"
            },
            Language::Or => {
                proof {
                    reveal_strlit("or");
                }
                "or"
            },
            Language::Pa => {
                proof {
                    reveal_strlit("pa");
                }
                "pa"
            },
            Language::Ta => {
                proof {
                    reveal_strlit("ta");
                }
                "ta"
            },
            Language::Te => {
                proof {
                    reveal_strlit("te");
                }
                "te"
            },
            Language::Ur => {
                proof {
                    reveal_strlit("ur");
                }
                "ur"
            },
        }
    }

    /// The code, as `Display` renders it.
    pub fn to_string(&self) -> (s: String)
        ensures
            s@ == code_of(*self),
    {
        let code = self.code();
        let mut s = String::new();
        crate::text::push_str(&mut s, code);
        s
    }

    /// Every language VOX accepts, in code order.
    pub fn all() -> (v: Vec<Language>)
        ensures
            v@ == all_languages(),
            v@.len() == 13,
            forall|l: Language| v@.contains(l),
    {
        let v = vec![
            Language::As,
            Language::Bn,
            Language::En,
            Language::Gu,
            Language::Hi,
            Language::Kn,
            Language::Ml,
            Language::Mr,
            Language::Or,
            Language::Pa,
            Language::Ta,
            Language::Te,
            Language::Ur,
        ];
        assert(v@ =~= all_languages());
        assert forall|l: Language| v@.contains(l) by {
            match l {
                Language::As => assert(v@[0] == l),
                Language::Bn => assert(v@[1] == l),
                Language::En => assert(v@[2] == l),
                Language::Gu => assert(v@[3] == l),
                Language::Hi => assert(v@[4] == l),
                Language::Kn => assert(v@[5] == l),
                Language::Ml => assert(v@[6] == l),
                Language::Mr => assert(v@[7] == l),
                Language::Or => assert(v@[8] == l),
                Language::Pa => assert(v@[9] == l),
                Language::Ta => assert(v@[10] == l),
                Language::Te => assert(v@[11] == l),
                Language::Ur => assert(v@[12] == l),
            }
        }
        v
    }

    /// Parses a wire code, case-sensitively (`FromStr` for `Language`).
    ///
    /// # Errors
    /// [`CoreError::UnsupportedLanguage`] carrying the offending value when
    /// `s` is not one of the thirteen codes.
    pub fn parse(s: &str) -> (r: Result<Language, CoreError>)
        ensures
            language_of_code(s@) matches Some(l) ==> r == Ok::<Language, CoreError>(l),
            language_of_code(s@) is None ==> (r matches Err(CoreError::UnsupportedLanguage(v))
                && v@ == s@),
    {
        let c = chars_of(s);
        if c.len() == 2 {
            let (a, b) = (c[0], c[1]);
            proof {
                assert(s@ =~= seq![a, b]);
            }
            if a == 'a' && b == 's' {
                return Ok(Language::As);
            } else if a == 'b' && b == 'n' {
                return Ok(Language::Bn);
            } else if a == 'e' && b == 'n' {
                return Ok(Language::En);
            } else if a == 'g' && b == 'u' {
                return Ok(Language::Gu);
            } else if a == 'h' && b == 'i' {
                return Ok(Language::Hi);
            } else if a == 'k' && b == 'n' {
                return Ok(Language::Kn);
            } else if a == 'm' && b == 'l' {
                return Ok(Language::Ml);
            } else if a == 'm' && b == 'r' {
                return Ok(Language::Mr);
            } else if a == 'o' && b == 'r' {
                return Ok(Language::Or);
            } else if a == 'p' && b == 'a' {
                return Ok(Language::Pa);
            } else if a == 't' && b == 'a' {
                return Ok(Language::Ta);
            } else if a == 't' && b == 'e' {
                return Ok(Language::Te);
            } else if a == 'u' && b == 'r' {
                return Ok(Language::Ur);
            }
        }
        Err(CoreError::UnsupportedLanguage(crate::text::string_from(c.as_slice())))
    }

    /// English display name of the language.
    pub fn display_name(self) -> (s: &'static str)
        ensures
            s@ == display_name_of(self),
    {
        match self {
            Language::As => "Assamese",
            Language::Bn => "Bengali",
            Language::En => "English",
            Language::Gu => "Gujarati",
            Language::Hi => "Hindi",
            Language::Kn => "Kannada",
            Language::Ml => "Malayalam",
            Language::Mr => "Marathi",
            Language::Or => "Odia",
            Language::Pa => "Punjabi",
            Language::Ta => "Tamil",
            Language::Te => "Telugu",
            Language::Ur => "Urdu",
        }
    }
}

/// Every accepted language, in code order.
pub open spec fn all_languages() -> Seq<Language> {
    seq![
        Language::As,
        Language::Bn,
        Language::En,
        Language::Gu,
        Language::Hi,
        Language::Kn,
        Language::Ml,
        Language::Mr,
        Language::Or,
        Language::Pa,
        Language::Ta,
        Language::Te,
        Language::Ur,
    ]
}

impl core::str::FromStr for Language {
    type Err = CoreError;

    fn from_str(s: &str) -> (r: Result<Language, CoreError>)
        ensures
            language_of_code(s@) matches Some(l) ==> r == Ok::<Language, CoreError>(l),
            language_of_code(s@) is None ==> (r matches Err(CoreError::UnsupportedLanguage(v))
                && v@ == s@),
    {
        Language::parse(s)
    }
}

/// English display name of `l`.
pub open spec fn display_name_of(l: Language) -> Seq<char> {
    match l {
        Language::As => "Assamese"@,
        Language::Bn => "Bengali"@,
        Language::En => "English"@,
        Language::Gu => "Gujarati"@,
        Language::Hi => "Hindi"@,
        Language::Kn => "Kannada"@,
        Language::Ml => "Malayalam"@,
        Language::Mr => "Marathi"@,
        Language::Or => "Odia"@,
        Language::Pa => "Punjabi"@,
        Language::Ta => "Tamil"@,
        Language::Te => "Telugu"@,
        Language::Ur => "Urdu"@,
    }
}

/// Parsing a language's own code gives that language back: the codes are
/// pairwise distinct, so the wire representation round-trips.
pub proof fn lemma_code_round_trip(l: Language)
    ensures
        language_of_code(code_of(l)) == Some(l),
{
    match l {
        Language::As => {},
        Language::Bn => {},
        Language::En => {},
        Language::Gu => {},
        Language::Hi => {},
        Language::Kn => {},
        Language::Ml => {},
        Language::Mr => {},
        Language::Or => {},
        Language::Pa => {},
        Language::Ta => {},
        Language::Te => {},
        Language::Ur => {},
    }
}

} // verus!

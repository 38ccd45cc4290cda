//! Embedding model selection.
//!
//! The embedding runtimes themselves live outside the library; this module
//! owns the closed set of model tags, their parsing, their fixed
//! dimensions, and the precedence rule that picks one.

use vstd::prelude::*;
use crate::error::MemexError;
use crate::strutil::str_to_chars;

verus! {

/// The supported embedding models.
#[derive(Clone, Copy, Debug, PartialEq, Eq, Structural)]
pub enum ModelChoice {
    /// 384 dimensions, very fast.
    MiniLM,
    /// 384 dimensions, good balance.
    BGESmall,
    /// 768 dimensions, good quality.
    Nomic,
    /// 768 dimensions, highest quality but slowest.
    Gemma,
    /// Tiny static-embedding model; dimensions found by probing.
    Potion,
}

impl Default for ModelChoice {
    /// Absent any tag, the choice falls back to Gemma.
    fn default() -> (r: Self)
        ensures
            r is Gemma,
    {
        ModelChoice::Gemma
    }
}

/// `c` is an ASCII uppercase letter.
pub open spec fn is_ascii_upper(c: char) -> bool {
    65 <= c as u64 <= 90
}

/// `x` and `y` have the same Unicode scalar up to ASCII case.
pub open spec fn char_ieq(x: char, y: char) -> bool {
    ||| x as u64 == y as u64
    ||| (is_ascii_upper(x) && y as u64 == x as u64 + 32)
    ||| (is_ascii_upper(y) && x as u64 == y as u64 + 32)
}

/// `a` and `b` are equal up to ASCII case.
pub open spec fn ascii_ieq(a: Seq<char>, b: Seq<char>) -> bool {
    a.len() == b.len() && forall|i: int| 0 <= i < a.len() ==> char_ieq(a[i], b[i])
}

fn chars_ieq(a: &Vec<char>, b: &str) -> (r: bool)
    ensures
        r == ascii_ieq(a@, b@),
{
    let bc = str_to_chars(b);
    if a.len() != bc.len() {
        return false;
    }
    let mut i: usize = 0;
    while i < a.len()
        invariant
            a@.len() == bc@.len(),
            bc@ == b@,
            i <= a@.len(),
            forall|k: int| 0 <= k < i ==> char_ieq(a@[k], bc@[k]),
        decreases a@.len() - i,
    {
        let x = a[i] as u64;
        let y = bc[i] as u64;
        let ok = x == y || (65 <= x && x <= 90 && y == x + 32) || (65 <= y && y <= 90 && x == y
            + 32);
        if !ok {
            return false;
        }
        i = i + 1;
    }
    true
}

/// The model a tag names, if any: tags are recognized up to ASCII case.
pub open spec fn spec_parse_model(s: Seq<char>) -> Option<ModelChoice> {
    if ascii_ieq(s, "minilm"@) || ascii_ieq(s, "mini"@) || ascii_ieq(s, "fast"@) {
        Some(ModelChoice::MiniLM)
    } else if ascii_ieq(s, "bge"@) || ascii_ieq(s, "bge-small"@) || ascii_ieq(s, "bgesmall"@) {
        Some(ModelChoice::BGESmall)
    } else if ascii_ieq(s, "nomic"@) {
        Some(ModelChoice::Nomic)
    } else if ascii_ieq(s, "gemma"@) || ascii_ieq(s, "embeddinggemma"@) || ascii_ieq(
        s,
        "default"@,
    ) {
        Some(ModelChoice::Gemma)
    } else if ascii_ieq(s, "potion"@) || ascii_ieq(s, "potion8m"@) || ascii_ieq(s, "potion-8m"@)
        || ascii_ieq(s, "potion-base-8m"@) || ascii_ieq(s, "model2vec"@) {
        Some(ModelChoice::Potion)
    } else {
        None
    }
}

impl ModelChoice {
    /// Parses a tag from an environment variable or the configuration;
    /// an unrecognized tag is a configuration error.
    pub fn parse(s: &str) -> (r: Result<ModelChoice, MemexError>)
        ensures
            spec_parse_model(s@) matches Some(m) ==> (r matches Ok(c) && c == m),
            spec_parse_model(s@) is None ==> (r matches Err(e) && e matches
                MemexError::ConfigInvalid(msg) && msg@ == "unknown model '"@ + s@
                + "', options: minilm, bge, nomic, gemma, potion"@),
    {
        let chars = str_to_chars(s);
        if chars_ieq(&chars, "minilm") || chars_ieq(&chars, "mini") || chars_ieq(&chars, "fast") {
            Ok(ModelChoice::MiniLM)
        } else if chars_ieq(&chars, "bge") || chars_ieq(&chars, "bge-small") || chars_ieq(
            &chars,
            "bgesmall",
        ) {
            Ok(ModelChoice::BGESmall)
        } else if chars_ieq(&chars, "nomic") {
            Ok(ModelChoice::Nomic)
        } else if chars_ieq(&chars, "gemma") || chars_ieq(&chars, "embeddinggemma") || chars_ieq(
            &chars,
            "default",
        ) {
            Ok(ModelChoice::Gemma)
        } else if chars_ieq(&chars, "potion") || chars_ieq(&chars, "potion8m") || chars_ieq(
            &chars,
            "potion-8m",
        ) || chars_ieq(&chars, "potion-base-8m") || chars_ieq(&chars, "model2vec") {
            Ok(ModelChoice::Potion)
        } else {
            let mut msg = String::from_str("unknown model '");
            msg.append(s);
            msg.append("', options: minilm, bge, nomic, gemma, potion");
            Err(MemexError::ConfigInvalid(msg))
        }
    }

    /// The fixed dimension count of the fastembed-backed models; the
    /// Potion backend reports its own by probing.
    pub fn fixed_dims(self) -> (r: Option<usize>)
        ensures
            self is MiniLM ==> r == Some(384usize),
            self is BGESmall ==> r == Some(384usize),
            self is Nomic ==> r == Some(768usize),
            self is Gemma ==> r == Some(768usize),
            self is Potion ==> r is None,
    {
        match self {
            ModelChoice::MiniLM => Some(384),
            ModelChoice::BGESmall => Some(384),
            ModelChoice::Nomic => Some(768),
            ModelChoice::Gemma => Some(768),
            ModelChoice::Potion => None,
        }
    }
}

/// The first tag present among the explicit argument, the environment
/// override and the configured model.
pub open spec fn spec_model_tag(
    explicit: Option<Seq<char>>,
    env: Option<Seq<char>>,
    config: Option<Seq<char>>,
) -> Option<Seq<char>> {
    if explicit is Some {
        explicit
    } else if env is Some {
        env
    } else {
        config
    }
}

/// Picks the model: an explicit argument wins over the environment
/// override, which wins over the configured tag; with none present the
/// default model is used. A present but unrecognized tag is an error.
pub fn resolve_model(
    explicit: Option<&str>,
    env: Option<&str>,
    config: Option<&str>,
) -> (r: Result<ModelChoice, MemexError>)
    ensures
        ({
            let tag = spec_model_tag(
                match explicit {
                    Some(s) => Some(s@),
                    None => None,
                },
                match env {
                    Some(s) => Some(s@),
                    None => None,
                },
                match config {
                    Some(s) => Some(s@),
                    None => None,
                },
            );
            match tag {
                Some(t) => {
                    &&& (spec_parse_model(t) matches Some(m) ==> (r matches Ok(c) && c == m))
                    &&& (spec_parse_model(t) is None ==> (r matches Err(e) && e is ConfigInvalid))
                },
                None => (r matches Ok(c) && c is Gemma),
            }
        }),
{
    let tag: Option<&str> = match explicit {
        Some(s) => Some(s),
        None => match env {
            Some(s) => Some(s),
            None => config,
        },
    };
    match tag {
        Some(s) => ModelChoice::parse(s),
        None => Ok(ModelChoice::Gemma),
    }
}

} // verus!

use vstd::prelude::*;
use vstd::std_specs::iter::IteratorSpec;

verus! {

broadcast use vstd::string::group_string_axioms;

/// The closed set of languages the gateway translates between.
#[derive(Clone, Copy, Debug, PartialEq, Eq, Structural)]
pub enum Lang {
    Zh,
    En,
}

/// Code points of the CJK blocks: unified ideographs and extension A,
/// compatibility ideographs, radicals, Kangxi, strokes, ideographic
/// description characters, and CJK symbols and punctuation.
pub open spec fn is_cjk_code(c: u32) -> bool {
    ||| 0x4E00 <= c <= 0x9FFF
    ||| 0x3400 <= c <= 0x4DBF
    ||| 0xF900 <= c <= 0xFAFF
    ||| 0x2E80 <= c <= 0x2EFF
    ||| 0x3000 <= c <= 0x303F
    ||| 0x31C0 <= c <= 0x31EF
    ||| 0x2F00 <= c <= 0x2FDF
    ||| 0x2FF0 <= c <= 0x2FFF
}

pub open spec fn has_cjk(s: Seq<char>) -> bool {
    exists|i: int| 0 <= i < s.len() && is_cjk_code(#[trigger] s[i] as u32)
}

/// The language a text is classified as.
pub open spec fn detected(s: Seq<char>) -> Lang {
    if has_cjk(s) {
        Lang::Zh
    } else {
        Lang::En
    }
}

/// The language a wire tag names, if any.
pub open spec fn lang_of_tag(t: Seq<char>) -> Option<Lang> {
    if t == seq!['z', 'h'] {
        Some(Lang::Zh)
    } else if t == seq!['e', 'n'] {
        Some(Lang::En)
    } else {
        None
    }
}

impl Lang {
    /// The lowercase wire tag of the language.
    pub open spec fn tag(self) -> Seq<char> {
        match self {
            Lang::Zh => seq!['z', 'h'],
            Lang::En => seq!['e', 'n'],
        }
    }

    /// The other member of the two-language set.
    pub open spec fn other(self) -> Lang {
        match self {
            Lang::Zh => Lang::En,
            Lang::En => Lang::Zh,
        }
    }

    pub fn as_str(&self) -> (r: &'static str)
        ensures
            r@ == self.tag(),
    {
        match self {
            Lang::Zh => {
                proof {
                    reveal_strlit("zh");
                }
                "zh"
            },
            Lang::En => {
                proof {
                    reveal_strlit("en");
                }
                "en"
            },
        }
    }

    pub fn opposite(&self) -> (r: Lang)
        ensures
            r == self.other(),
    {
        match self {
            Lang::Zh => Lang::En,
            Lang::En => Lang::Zh,
        }
    }

    /// Reads a wire tag: `"zh"` or `"en"`, exactly; anything else names no language.
    pub fn from_tag(t: &str) -> (r: Option<Lang>)
        ensures
            r == lang_of_tag(t@),
    {
        if t.unicode_len() != 2 {
            return None;
        }
        let a = t.get_char(0);
        let b = t.get_char(1);
        if a == 'z' && b == 'h' {
            assert(t@ =~= seq!['z', 'h']);
            Some(Lang::Zh)
        } else if a == 'e' && b == 'n' {
            assert(t@ =~= seq!['e', 'n']);
            Some(Lang::En)
        } else {
            None
        }
    }
}

pub fn is_cjk(c: char) -> (r: bool)
    ensures
        r == is_cjk_code(c as u32),
{
    let v = c as u32;
    (0x4E00 <= v && v <= 0x9FFF) || (0x3400 <= v && v <= 0x4DBF) || (0xF900 <= v && v <= 0xFAFF)
        || (0x2E80 <= v && v <= 0x2EFF) || (0x3000 <= v && v <= 0x303F) || (0x31C0 <= v && v
        <= 0x31EF) || (0x2F00 <= v && v <= 0x2FDF) || (0x2FF0 <= v && v <= 0x2FFF)
}

/// Classifies a text: Zh when any character lies in a CJK block, else En.
pub fn detect_lang(text: &str) -> (r: Lang)
    ensures
        r == detected(text@),
{
    let mut it = text.chars();
    let ghost mut i: int = 0;
    loop
        invariant
            0 <= i <= text@.len(),
            it.remaining() == text@.subrange(i, text@.len() as int),
            forall|j: int| 0 <= j < i ==> !is_cjk_code(#[trigger] text@[j] as u32),
        decreases text@.len() - i,
    {
        match it.next() {
            Some(c) => {
                assert(c == text@[i]);
                if is_cjk(c) {
                    return Lang::Zh;
                }
                proof {
                    i = i + 1;
                }
            },
            None => {
                return Lang::En;
            },
        }
    }
}

} // verus!

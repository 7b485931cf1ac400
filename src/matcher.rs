use vstd::prelude::*;
use vstd::utf8::encode_utf8;

verus! {

/// `'a' - 'A'`: how far a lower-case Latin letter lies above its upper case.
pub const ASCII_CASE_OFFSET: u32 = 32;

/// `'а' - 'А'` (U+0430 - U+0410): the same distance for Cyrillic letters.
pub const CYRILLIC_CASE_OFFSET: u32 = 32;

/// The scripts whose letters the matcher can fold by a fixed offset.
#[derive(Clone, Copy, Debug, PartialEq, Eq, Structural)]
pub enum Script {
    /// Compares the UTF-8 bytes of the text one by one.
    Ascii,
    /// Compares the text code point by code point.
    Cyrillic,
}

/// How candidate and pattern are compared.
#[derive(Clone, Copy, Debug, PartialEq, Eq, Structural)]
pub struct MatchMode {
    pub ignore_case: bool,
    pub script: Script,
}

/// Two code units agree when they are equal, or, ignoring case, when one lies
/// exactly `offset` above the other.
pub open spec fn units_agree(a: u32, b: u32, ignore_case: bool, offset: u32) -> bool {
    a == b || (ignore_case && (a - b == offset || b - a == offset))
}

/// `p` agrees with the units of `c` that start at position `i`.
pub open spec fn occurs_at(c: Seq<u32>, p: Seq<u32>, i: int, ignore_case: bool, offset: u32) -> bool {
    &&& 0 <= i
    &&& i + p.len() <= c.len()
    &&& forall|j: int| 0 <= j < p.len() ==> units_agree(#[trigger] c[i + j], p[j], ignore_case, offset)
}

/// `p` occurs somewhere in `c` as a contiguous run of units.
pub open spec fn occurs_in(c: Seq<u32>, p: Seq<u32>, ignore_case: bool, offset: u32) -> bool {
    exists|i: int| occurs_at(c, p, i, ignore_case, offset)
}

impl Script {
    pub open spec fn spec_case_offset(self) -> u32 {
        match self {
            Script::Ascii => ASCII_CASE_OFFSET,
            Script::Cyrillic => CYRILLIC_CASE_OFFSET,
        }
    }

    /// The code units in which text of this script is compared.
    pub open spec fn units(self, s: Seq<char>) -> Seq<u32> {
        match self {
            Script::Ascii => encode_utf8(s).map_values(|b: u8| b as u32),
            Script::Cyrillic => s.map_values(|c: char| c as u32),
        }
    }

    pub fn case_offset(&self) -> (r: u32)
        ensures
            r == self.spec_case_offset(),
    {
        match self {
            Script::Ascii => ASCII_CASE_OFFSET,
            Script::Cyrillic => CYRILLIC_CASE_OFFSET,
        }
    }
}

impl MatchMode {
    /// `pattern` occurs in `candidate` under this mode. An empty pattern
    /// occurs in every candidate.
    pub open spec fn matches(self, candidate: Seq<char>, pattern: Seq<char>) -> bool {
        occurs_in(
            self.script.units(candidate),
            self.script.units(pattern),
            self.ignore_case,
            self.script.spec_case_offset(),
        )
    }
}

/// Compares two code units, folding case by `up_to_low_offset` when asked.
pub fn cmp_chars(c1: u32, c2: u32, ignore_case: bool, up_to_low_offset: u32) -> (r: bool)
    ensures
        r == units_agree(c1, c2, ignore_case, up_to_low_offset),
{
    if ignore_case {
        if c1 == c2 {
            true
        } else if c1 > c2 {
            c1 - c2 == up_to_low_offset
        } else {
            c2 - c1 == up_to_low_offset
        }
    } else {
        c1 == c2
    }
}

/// Naive substring search: tries every start in turn and compares unit by
/// unit until the pattern is used up, the candidate runs out, or a unit
/// differs.
pub fn match_vecs(search: &[u32], pattern: &[u32], ignore_case: bool, up_to_low_offset: u32) -> (r:
    bool)
    ensures
        r == occurs_in(search@, pattern@, ignore_case, up_to_low_offset),
{
    let search_len = search.len();
    let pattern_len = pattern.len();
    if pattern_len == 0 {
        assert(occurs_at(search@, pattern@, 0, ignore_case, up_to_low_offset));
        return true;
    }
    let mut search_ind: usize = 0;
    while search_ind < search_len
        invariant
            search_len == search@.len(),
            pattern_len == pattern@.len(),
            pattern_len > 0,
            search_ind <= search_len,
            forall|i: int|
                0 <= i < search_ind ==> !occurs_at(
                    search@,
                    pattern@,
                    i,
                    ignore_case,
                    up_to_low_offset,
                ),
        decreases search_len - search_ind,
    {
        let mut pattern_ind: usize = 0;
        while search_ind + pattern_ind < search_len && pattern_ind < pattern_len
            invariant
                search_len == search@.len(),
                pattern_len == pattern@.len(),
                search_ind < search_len,
                pattern_ind <= pattern_len,
                search_ind + pattern_ind <= search_len,
                forall|j: int|
                    0 <= j < pattern_ind ==> units_agree(
                        #[trigger] search@[search_ind + j],
                        pattern@[j],
                        ignore_case,
                        up_to_low_offset,
                    ),
            ensures
                pattern_ind == pattern_len || search_ind + pattern_ind == search_len
                    || !units_agree(
                    search@[search_ind + pattern_ind],
                    pattern@[pattern_ind as int],
                    ignore_case,
                    up_to_low_offset,
                ),
            decreases pattern_len - pattern_ind,
        {
            if !cmp_chars(
                search[search_ind + pattern_ind],
                pattern[pattern_ind],
                ignore_case,
                up_to_low_offset,
            ) {
                break ;
            }
            pattern_ind += 1;
        }
        if pattern_ind == pattern_len {
            assert(occurs_at(search@, pattern@, search_ind as int, ignore_case, up_to_low_offset));
            return true;
        }
        if search_ind + pattern_ind == search_len {
            // The candidate ran out first: no later start leaves room either.
            assert forall|i: int| #![auto]
                0 <= i < search_len implies !occurs_at(
                    search@,
                    pattern@,
                    i,
                    ignore_case,
                    up_to_low_offset,
                ) by {
                if i < search_ind {
                }
            }
            return false;
        }
        let ghost k = pattern_ind as int;
        assert(search@[search_ind + k] == search@[search_ind as int + k]);
        search_ind += 1;
    }
    assert forall|i: int| #![auto] !occurs_at(search@, pattern@, i, ignore_case, up_to_low_offset) by {
        if 0 <= i < search_len {
        }
    }
    false
}

/// `needle` occurs in `hay` as a contiguous run of characters.
pub open spec fn text_contains(hay: Seq<char>, needle: Seq<char>) -> bool {
    exists|i: int|
        0 <= i && i + needle.len() <= hay.len() && #[trigger] hay.subrange(i, i + needle.len())
            == needle
}

/// Collects the code units of `s` in which `script` compares text.
fn code_units(s: &str, script: Script) -> (r: Vec<u32>)
    ensures
        r@ == script.units(s@),
{
    let mut r: Vec<u32> = Vec::new();
    match script {
        Script::Ascii => {
            let bytes = s.as_bytes();
            let mut i: usize = 0;
            while i < bytes.len()
                invariant
                    i <= bytes@.len(),
                    bytes@ == encode_utf8(s@),
                    r@ == bytes@.take(i as int).map_values(|b: u8| b as u32),
                decreases bytes@.len() - i,
            {
                r.push(bytes[i] as u32);
                i += 1;
                assert(bytes@.take(i as int).map_values(|b: u8| b as u32) =~= bytes@.take(
                    i - 1,
                ).map_values(|b: u8| b as u32).push(bytes@[i - 1] as u32));
            }
            assert(bytes@.take(i as int) =~= bytes@);
        },
        Script::Cyrillic => {
            for c in it: s.chars()
                invariant
                    it.seq() == s@,
                    r@ == it.seq().take(it.index() as int).map_values(|c: char| c as u32),
            {
                r.push(c as u32);
            }
        },
    }
    r
}

/// Tells whether `pattern` occurs in `search` under `mode`.
pub fn match_str(search: &str, pattern: &str, mode: MatchMode) -> (r: bool)
    ensures
        r == mode.matches(search@, pattern@),
{
    let search_units = code_units(search, mode.script);
    let pattern_units = code_units(pattern, mode.script);
    match_vecs(
        search_units.as_slice(),
        pattern_units.as_slice(),
        mode.ignore_case,
        mode.script.case_offset(),
    )
}

proof fn lemma_code_point_injective(c: char, d: char)
    ensures
        c as u32 == d as u32 ==> c == d,
{
}

/// Tells whether `needle` occurs in `hay`, comparing characters exactly.
pub fn contains_text(hay: &str, needle: &str) -> (r: bool)
    ensures
        r == text_contains(hay@, needle@),
{
    let hay_units = code_units(hay, Script::Cyrillic);
    let needle_units = code_units(needle, Script::Cyrillic);
    let r = match_vecs(hay_units.as_slice(), needle_units.as_slice(), false, 0);
    proof {
        let h = hay@;
        let n = needle@;
        if r {
            let i = choose|i: int| occurs_at(hay_units@, needle_units@, i, false, 0);
            assert(h.subrange(i, i + n.len()) =~= n) by {
                assert forall|j: int| 0 <= j < n.len() implies h.subrange(i, i + n.len())[j]
                    == n[j] by {
                    assert(units_agree(hay_units@[i + j], needle_units@[j], false, 0));
                    lemma_code_point_injective(h[i + j], n[j]);
                    assert(h.subrange(i, i + n.len())[j] == h[i + j]);
                }
            }
        }
        if text_contains(h, n) {
            let i = choose|i: int|
                0 <= i && i + n.len() <= h.len() && #[trigger] h.subrange(i, i + n.len()) == n;
            assert forall|j: int| 0 <= j < n.len() implies units_agree(
                #[trigger] hay_units@[i + j],
                needle_units@[j],
                false,
                0,
            ) by {
                assert(h.subrange(i, i + n.len())[j] == n[j]);
            }
            assert(occurs_at(hay_units@, needle_units@, i, false, 0));
        }
    }
    r
}

} // verus!

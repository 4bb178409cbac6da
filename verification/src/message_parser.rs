//! A small cursor over one command line: it hands out the word before a
//! separator and the trimmed remainder, character by character.

use vstd::prelude::*;
use vstd::string::StrSliceExecFns;

use crate::text::{spec_trim, trim_str};

verus! {

/// A cursor into a borrowed line. `offset` counts the characters already
/// consumed.
pub struct MessageParser<'a> {
    pub original: &'a str,
    pub offset: usize,
}

/// `c` is one of the (ASCII) separator bytes.
pub open spec fn spec_matches_any(c: char, chars: Seq<u8>) -> bool {
    exists|k: int| 0 <= k < chars.len() && c as int == chars[k] as int
}

/// The index of the first character in `s` that is one of the separator
/// bytes, if any.
pub open spec fn spec_find_any(s: Seq<char>, chars: Seq<u8>) -> Option<int>
    decreases s.len(),
{
    if s.len() == 0 {
        None
    } else if spec_matches_any(s.first(), chars) {
        Some(0)
    } else {
        match spec_find_any(s.drop_first(), chars) {
            Some(i) => Some(i + 1),
            None => None,
        }
    }
}

pub proof fn lemma_spec_find_any(s: Seq<char>, chars: Seq<u8>)
    ensures
        match spec_find_any(s, chars) {
            Some(i) => 0 <= i < s.len() && spec_matches_any(s[i], chars) && forall|k: int|
                0 <= k < i ==> !spec_matches_any(s[k], chars),
            None => forall|k: int| 0 <= k < s.len() ==> !spec_matches_any(s[k], chars),
        },
    decreases s.len(),
{
    if s.len() > 0 && !spec_matches_any(s.first(), chars) {
        lemma_spec_find_any(s.drop_first(), chars);
        match spec_find_any(s.drop_first(), chars) {
            Some(i) => {
                assert(s.drop_first()[i] == s[i + 1]);
                assert forall|k: int| 0 <= k < i + 1 implies !spec_matches_any(s[k], chars) by {
                    if k > 0 {
                        assert(s.drop_first()[k - 1] == s[k]);
                    }
                }
            },
            None => {
                assert forall|k: int| 0 <= k < s.len() implies !spec_matches_any(s[k], chars) by {
                    if k > 0 {
                        assert(s.drop_first()[k - 1] == s[k]);
                    }
                }
            },
        }
    }
}

fn matches_any(c: char, chars: &[u8]) -> (r: bool)
    ensures
        r == spec_matches_any(c, chars@),
{
    let cu: u32 = c as u32;
    let n: usize = chars.len();
    let mut k: usize = 0;
    while k < n
        invariant
            0 <= k <= n,
            n == chars@.len(),
            cu == c as u32,
            forall|j: int| 0 <= j < k ==> c as int != chars@[j] as int,
        decreases n - k,
    {
        if cu == chars[k] as u32 {
            return true;
        }
        k += 1;
    }
    false
}

impl<'a> MessageParser<'a> {
    /// The cursor is inside the line.
    pub open spec fn wf(self) -> bool {
        self.offset <= self.original@.len()
    }

    /// The characters not yet consumed.
    pub open spec fn rem(self) -> Seq<char> {
        self.original@.skip(self.offset as int)
    }

    /// A cursor at the start of `s`.
    pub fn new(s: &'a str) -> (r: MessageParser<'a>)
        ensures
            r.wf(),
            r.original@ == s@,
            r.offset == 0,
            r.rem() == s@,
    {
        let r = MessageParser { original: s, offset: 0 };
        proof {
            assert(r.rem() =~= s@);
        }
        r
    }

    /// The relative index and matching byte of the first remaining
    /// character that is one of the separator bytes, if any.
    pub fn str_until_any(&self, chars: &[u8]) -> (r: Option<(usize, u8)>)
        requires
            self.wf(),
        ensures
            match r {
                Some((j, b)) => spec_find_any(self.rem(), chars@) == Some(j as int)
                    && j < self.rem().len() && self.rem()[j as int] as int == b as int,
                None => spec_find_any(self.rem(), chars@) is None,
            },
    {
        let n: usize = self.original.unicode_len();
        let mut j: usize = 0;
        while self.offset + j < n
            invariant
                self.wf(),
                n == self.original@.len(),
                0 <= j <= n - self.offset,
                forall|k: int| 0 <= k < j ==> !spec_matches_any(self.rem()[k], chars@),
            decreases n - self.offset - j,
        {
            let c: char = self.original.get_char(self.offset + j);
            proof {
                assert(self.rem()[j as int] == self.original@[self.offset + j as int]);
            }
            if matches_any(c, chars) {
                proof {
                    lemma_spec_find_any(self.rem(), chars@);
                    match spec_find_any(self.rem(), chars@) {
                        Some(i) => {
                            if i < j {
                                assert(!spec_matches_any(self.rem()[i], chars@));
                            }
                            if i > j {
                                assert(!spec_matches_any(self.rem()[j as int], chars@));
                            }
                        },
                        None => {
                            assert(!spec_matches_any(self.rem()[j as int], chars@));
                        },
                    }
                }
                let cu: u32 = c as u32;
                return Some((j, cu as u8));
            }
            j += 1;
        }
        proof {
            lemma_spec_find_any(self.rem(), chars@);
        }
        None
    }

    /// The relative index of the first remaining occurrence of `c`.
    pub fn str_until(&self, c: u8) -> (r: Option<usize>)
        requires
            self.wf(),
        ensures
            match r {
                Some(j) => spec_find_any(self.rem(), seq![c]) == Some(j as int) && j
                    < self.rem().len(),
                None => spec_find_any(self.rem(), seq![c]) is None,
            },
    {
        let arr: [u8; 1] = [c];
        proof {
            assert(arr@ =~= seq![c]);
        }
        match self.str_until_any(&arr) {
            Some((j, _)) => Some(j),
            None => None,
        }
    }

    /// Consume and return the word before the first occurrence of `c`,
    /// dropping the separator itself; with no separator left, consume
    /// nothing.
    pub fn consume_word_until(&mut self, c: u8) -> (r: Option<&'a str>)
        requires
            old(self).wf(),
        ensures
            final(self).wf(),
            final(self).original@ == old(self).original@,
            match spec_find_any(old(self).rem(), seq![c]) {
                Some(j) => r matches Some(w) && w@ == old(self).rem().take(j)
                    && final(self).offset == old(self).offset + j + 1,
                None => r is None && final(self).offset == old(self).offset,
            },
    {
        let orig: &'a str = self.original;
        let n: usize = orig.unicode_len();
        match self.str_until(c) {
            Some(j) => {
                proof {
                    lemma_spec_find_any(self.rem(), seq![c]);
                }
                let start: usize = self.offset;
                let end: usize = start + j;
                let w: &'a str = orig.substring_char(start, end);
                self.offset = end + 1;
                proof {
                    assert(w@ =~= old(self).rem().take(j as int));
                }
                Some(w)
            },
            None => None,
        }
    }

    /// The not-yet-consumed part of the line, trimmed of surrounding
    /// whitespace.
    pub fn remaining(&self) -> (r: &str)
        requires
            self.wf(),
        ensures
            r@ == spec_trim(self.rem()),
    {
        let n: usize = self.original.unicode_len();
        let rest: &str = self.original.substring_char(self.offset, n);
        proof {
            assert(rest@ =~= self.rem());
        }
        trim_str(rest)
    }
}

} // verus!

//! The scanner itself: an owned UTF-8 text buffer, a byte cursor into it, and
//! the capture groups of the most recent match attempt.

use crate::rex;
use crate::text;
use regex::Regex;
use vstd::prelude::*;
use vstd::string::StrSliceExecFns;
use vstd::utf8::{decode_utf8, encode_utf8, is_char_boundary, valid_utf8};

verus! {

broadcast use vstd::utf8::group_utf8_lib;

/// True when `pos` sits at the beginning of a line of `text`: at the very
/// start, or directly after a line-feed byte.
pub open spec fn bol_at(text: Seq<u8>, pos: int) -> bool {
    pos == 0 || (0 < pos <= text.len() && text[pos - 1] == 10u8)
}

/// One capture group of a successful match: the byte range it covered in the
/// scanner's text, and the characters of that stretch.
#[derive(Debug)]
struct CapGroup {
    start: usize,
    end: usize,
    chars: String,
}

/// The capture groups recorded by the most recent match attempt, together
/// with the pattern's group names.
#[derive(Debug)]
pub struct MatchCaps {
    groups: Vec<Option<CapGroup>>,
    names: Vec<Option<String>>,
}

impl MatchCaps {
    /// The byte range each capture group covered, by group index; `None` for
    /// a group that did not participate in the match.
    pub closed spec fn ranges(self) -> Seq<Option<(int, int)>> {
        self.groups@.map_values(
            |g: Option<CapGroup>|
                match g {
                    Some(c) => Some((c.start as int, c.end as int)),
                    None => None,
                },
        )
    }

    /// The characters each capture group covered, by group index.
    pub closed spec fn texts(self) -> Seq<Option<Seq<char>>> {
        self.groups@.map_values(
            |g: Option<CapGroup>|
                match g {
                    Some(c) => Some(c.chars@),
                    None => None,
                },
        )
    }

    /// The pattern's capture-group names, by group index.
    pub closed spec fn names_view(self) -> Seq<Option<Seq<char>>> {
        rex::names_as_view(self.names@)
    }

    /// How a recorded match relates to the text it was made on: group 0 — the
    /// whole match — is present, and every present group names a stretch of
    /// the text between character boundaries whose decoding was recorded.
    pub open spec fn caps_wf(self, text: Seq<u8>) -> bool {
        &&& self.ranges().len() >= 1
        &&& self.ranges()[0] is Some
        &&& self.texts().len() == self.ranges().len()
        &&& forall|i: int|
            0 <= i < self.ranges().len() ==> match #[trigger] self.ranges()[i] {
                Some(g) => {
                    &&& 0 <= g.0 <= g.1 <= text.len()
                    &&& valid_utf8(text) ==> is_char_boundary(text, g.0) && is_char_boundary(
                        text,
                        g.1,
                    ) && valid_utf8(text.subrange(g.0, g.1)) && self.texts()[i] == Some(
                        decode_utf8(text.subrange(g.0, g.1)),
                    )
                },
                None => self.texts()[i] is None,
            }
    }
}

/// The index of the first capture group that carries the name `n`, if any.
pub open spec fn name_index(names: Seq<Option<Seq<char>>>, n: Seq<char>) -> Option<int>
    decreases names.len(),
{
    if names.len() == 0 {
        None
    } else if names[0] == Some(n) {
        Some(0)
    } else {
        match name_index(names.drop_first(), n) {
            Some(i) => Some(i + 1),
            None => None,
        }
    }
}

/// When a name is found, the index handed back is in range and names the
/// group that carries it.
pub proof fn lemma_name_index_in_range(names: Seq<Option<Seq<char>>>, n: Seq<char>)
    ensures
        match name_index(names, n) {
            Some(j) => 0 <= j < names.len() && names[j] == Some(n),
            None => true,
        },
    decreases names.len(),
{
    if names.len() != 0 && names[0] != Some(n) {
        lemma_name_index_in_range(names.drop_first(), n);
    }
}

impl MatchCaps {
    /// The substring captured by group `i` — group 0 is the whole match —
    /// or `None` when the index is out of range or the group did not
    /// participate in the match.
    pub fn at(&self, i: usize) -> (r: Option<String>)
        ensures
            match r {
                Some(s) => i < self.ranges().len() && self.ranges()[i as int] is Some
                    && self.texts()[i as int] == Some(s@),
                None => i >= self.ranges().len() || self.ranges()[i as int] is None,
            },
    {
        if i >= self.groups.len() {
            return None;
        }
        match &self.groups[i] {
            Some(g) => Some(g.chars.clone()),
            None => None,
        }
    }

    /// The substring captured by the group named `name`, or `None` when no
    /// group carries that name or the group did not participate.
    pub fn name(&self, name: &str) -> (r: Option<String>)
        ensures
            match name_index(self.names_view(), name@) {
                None => r is None,
                Some(j) => match r {
                    Some(s) => j < self.ranges().len() && self.ranges()[j] is Some
                        && self.texts()[j] == Some(s@),
                    None => j >= self.ranges().len() || self.ranges()[j] is None,
                },
            },
    {
        let target: String = name.to_owned();
        proof {
            assert(self.names_view().skip(0) =~= self.names_view());
        }
        match self.find_name(&target, 0) {
            Some(i) => self.at(i),
            None => None,
        }
    }

    /// Walks the name list from entry `i` on, looking for `target`.
    fn find_name(&self, target: &String, i: usize) -> (r: Option<usize>)
        requires
            i <= self.names@.len(),
        ensures
            match name_index(self.names_view().skip(i as int), target@) {
                None => r is None,
                Some(j) => r matches Some(u) && u == i + j && u < self.names_view().len(),
            },
        decreases self.names@.len() - i,
    {
        if i == self.names.len() {
            proof {
                assert(self.names_view().skip(i as int) =~= Seq::<Option<Seq<char>>>::empty());
            }
            return None;
        }
        let ghost tail = self.names_view().skip(i as int);
        let hit = match &self.names[i] {
            Some(s) => s.eq(target),
            None => false,
        };
        proof {
            assert(tail[0] == self.names_view()[i as int]);
        }
        if hit {
            Some(i)
        } else {
            let r = self.find_name(target, i + 1);
            proof {
                assert(tail.drop_first() =~= self.names_view().skip(i as int + 1));
            }
            r
        }
    }
}

/// A cursor over an immutable text, with the captures of the most recent
/// match attempt.
#[derive(Debug)]
pub struct StringScanner {
    buf: Vec<u8>,
    pos: usize,
    last: Option<MatchCaps>,
}

impl StringScanner {
    /// The scanned text, as UTF-8 bytes.
    pub closed spec fn text(self) -> Seq<u8> {
        self.buf@
    }

    /// The cursor: a byte offset into the text.
    pub closed spec fn cur(self) -> int {
        self.pos as int
    }

    /// The outcome of the most recent match attempt: `None` after a failed
    /// attempt or before any, the recorded captures after a successful one.
    pub closed spec fn last_caps(self) -> Option<MatchCaps> {
        self.last
    }

    /// The scanner's invariant: the cursor stays inside the text, the text is
    /// well-formed UTF-8, and any recorded captures describe that text.
    pub open spec fn wf(self) -> bool {
        &&& 0 <= self.cur() <= self.text().len()
        &&& valid_utf8(self.text())
        &&& match self.last_caps() {
            Some(m) => m.caps_wf(self.text()),
            None => true,
        }
    }

    /// Binds a scanner to `s`, with the cursor at the start and no recorded
    /// match.
    pub fn new(s: &str) -> (sc: StringScanner)
        ensures
            sc.wf(),
            sc.text() == encode_utf8(s@),
            sc.cur() == 0,
            sc.last_caps() is None,
    {
        StringScanner { buf: s.as_bytes_vec(), pos: 0, last: None }
    }

    /// Is the cursor at the beginning of a line: at the start of the text, or
    /// directly after a line-feed byte?
    pub fn is_bol(&self) -> (r: bool)
        ensures
            r == bol_at(self.text(), self.cur()),
    {
        if self.pos == 0 {
            true
        } else if self.pos > self.buf.len() {
            false
        } else {
            self.buf[self.pos - 1] == 10
        }
    }

    /// Is the cursor at the end of the text?
    pub fn is_eos(&self) -> (r: bool)
        ensures
            r == (self.cur() == self.text().len()),
    {
        self.pos == self.buf.len()
    }

    /// The cursor's byte offset.
    pub fn get_pos(&self) -> (r: usize)
        ensures
            r == self.cur(),
    {
        self.pos
    }

    /// Moves the cursor to `pos`, forward or backward. Rejected — and the
    /// cursor left unchanged — exactly when `pos` lies past the end of the
    /// text. The recorded match is untouched either way.
    pub fn set_pos(&mut self, pos: usize) -> (ok: bool)
        requires
            old(self).wf(),
        ensures
            final(self).wf(),
            final(self).text() == old(self).text(),
            final(self).last_caps() == old(self).last_caps(),
            ok == (pos <= old(self).text().len()),
            final(self).cur() == if ok {
                pos as int
            } else {
                old(self).cur()
            },
    {
        if pos > self.buf.len() {
            return false;
        }
        self.pos = pos;
        true
    }

    /// Forces the cursor to the end of the text; always succeeds.
    pub fn terminate(&mut self)
        requires
            old(self).wf(),
        ensures
            final(self).wf(),
            final(self).text() == old(self).text(),
            final(self).last_caps() == old(self).last_caps(),
            final(self).cur() == final(self).text().len(),
    {
        self.pos = self.buf.len();
    }

    /// Up to `len` bytes from the cursor on, clipped to the end of the text;
    /// `None` at end of text. The window is cut by bytes and so may end
    /// inside a multi-byte character.
    pub fn peek_bytes(&self, len: usize) -> (r: Option<Vec<u8>>)
        requires
            self.wf(),
        ensures
            match r {
                None => self.cur() == self.text().len(),
                Some(b) => self.cur() < self.text().len() && b@ == self.text().subrange(
                    self.cur(),
                    vstd::math::min(self.cur() + len, self.text().len() as int),
                ),
            },
    {
        if self.pos == self.buf.len() {
            return None;
        }
        let end = if len >= self.buf.len() - self.pos {
            self.buf.len()
        } else {
            self.pos + len
        };
        Some(text::copy_range(&self.buf, self.pos, end))
    }

    /// Reads the single byte under the cursor and advances by one byte —
    /// even inside a multi-byte character; `None` at end of text, with the
    /// cursor unchanged. The recorded match is untouched.
    pub fn get_byte(&mut self) -> (r: Option<u8>)
        requires
            old(self).wf(),
        ensures
            final(self).wf(),
            final(self).text() == old(self).text(),
            final(self).last_caps() == old(self).last_caps(),
            match r {
                None => old(self).cur() == old(self).text().len() && final(self).cur() == old(
                    self,
                ).cur(),
                Some(b) => old(self).cur() < old(self).text().len() && b == old(self).text()[old(
                    self,
                ).cur()] && final(self).cur() == old(self).cur() + 1,
            },
    {
        if self.pos == self.buf.len() {
            return None;
        }
        let b = self.buf[self.pos];
        self.pos = self.pos + 1;
        Some(b)
    }

    /// The unconsumed suffix of the text, from the cursor to the end; `None`
    /// at end of text.
    pub fn rest(&self) -> (r: Option<String>)
        requires
            self.wf(),
            is_char_boundary(self.text(), self.cur()),
        ensures
            match r {
                None => self.cur() == self.text().len(),
                Some(s) => self.cur() < self.text().len() && s@ == decode_utf8(
                    self.text().subrange(self.cur(), self.text().len() as int),
                ),
            },
    {
        if self.pos == self.buf.len() {
            return None;
        }
        let bytes = text::copy_range(&self.buf, self.pos, self.buf.len());
        Some(text::bytes_to_string(bytes))
    }

    /// Up to `len` whole characters from the cursor on, clipped to however
    /// many remain; `None` at end of text. Never cuts a multi-byte character.
    pub fn peek_chars(&self, len: usize) -> (r: Option<String>)
        requires
            self.wf(),
            is_char_boundary(self.text(), self.cur()),
        ensures
            ({
                let remaining = decode_utf8(
                    self.text().subrange(self.cur(), self.text().len() as int),
                );
                match r {
                    None => self.cur() == self.text().len(),
                    Some(s) => self.cur() < self.text().len() && s@ == remaining.take(
                        vstd::math::min(len as int, remaining.len() as int),
                    ),
                }
            }),
    {
        if self.pos == self.buf.len() {
            return None;
        }
        proof {
            vstd::utf8::valid_utf8_split(self.text(), self.cur());
        }
        let q = text::advance_chars(&self.buf, self.pos, len);
        let bytes = text::copy_range(&self.buf, self.pos, q);
        let s = text::bytes_to_string(bytes);
        proof {
            let remaining = decode_utf8(self.text().subrange(self.cur(), self.text().len() as int));
            let taken = decode_utf8(self.text().subrange(self.cur(), q as int));
            let m = vstd::math::min(len as int, remaining.len() as int);
            assert(remaining.take(m) =~= taken);
        }
        Some(s)
    }

    /// Reads the whole character under the cursor — however many bytes it
    /// occupies — and advances past it; `None` at end of text, with the
    /// cursor unchanged. The recorded match is untouched.
    pub fn get_char(&mut self) -> (r: Option<String>)
        requires
            old(self).wf(),
            is_char_boundary(old(self).text(), old(self).cur()),
        ensures
            final(self).wf(),
            final(self).text() == old(self).text(),
            final(self).last_caps() == old(self).last_caps(),
            is_char_boundary(final(self).text(), final(self).cur()),
            match r {
                None => old(self).cur() == old(self).text().len() && final(self).cur() == old(
                    self,
                ).cur(),
                Some(s) => {
                    &&& old(self).cur() < old(self).text().len()
                    &&& old(self).cur() < final(self).cur() <= final(self).text().len()
                    &&& valid_utf8(
                        old(self).text().subrange(old(self).cur(), final(self).cur()),
                    )
                    &&& s@ == decode_utf8(
                        old(self).text().subrange(old(self).cur(), final(self).cur()),
                    )
                    &&& s@ == decode_utf8(
                        old(self).text().subrange(old(self).cur(), old(self).text().len() as int),
                    ).take(1)
                    &&& s@.len() == 1
                },
            },
    {
        if self.pos == self.buf.len() {
            return None;
        }
        proof {
            vstd::utf8::valid_utf8_split(self.text(), self.cur());
        }
        let k = text::first_scalar_len(&self.buf, self.pos);
        proof {
            text::lemma_first_char_split(self.text(), self.cur());
            text::lemma_boundary_offset(
                self.text(),
                self.cur(),
                k as int,
            );
            let rest = self.text().subrange(self.cur(), self.text().len() as int);
            let head = self.text().subrange(self.cur(), self.cur() + k);
            assert(decode_utf8(rest).take(1) =~= decode_utf8(head));
        }
        let bytes = text::copy_range(&self.buf, self.pos, self.pos + k);
        let s = text::bytes_to_string(bytes);
        self.pos = self.pos + k;
        Some(s)
    }

    /// Attempts `re` against the text from the cursor on and replaces the
    /// recorded match wholesale; the cursor stays put. On success, hands back
    /// the absolute byte range of group 0, the whole match.
    fn attempt(&mut self, re: &Regex) -> (r: Option<(usize, usize)>)
        requires
            old(self).wf(),
            is_char_boundary(old(self).text(), old(self).cur()),
        ensures
            final(self).wf(),
            final(self).text() == old(self).text(),
            final(self).cur() == old(self).cur(),
            records_attempt(*old(self), *final(self), *re),
            (r is Some) == (rex::caps_of(
                *re,
                old(self).text().subrange(old(self).cur(), old(self).text().len() as int),
            ) is Some),
            match r {
                None => final(self).last_caps() is None,
                Some(g0) => {
                    &&& final(self).last_caps() matches Some(m)
                    &&& m.ranges()[0] == Some((g0.0 as int, g0.1 as int))
                    &&& old(self).cur() <= g0.0 <= g0.1 <= final(self).text().len()
                    &&& is_char_boundary(final(self).text(), g0.1 as int)
                },
            },
    {
        let hay = text::copy_range(&self.buf, self.pos, self.buf.len());
        proof {
            vstd::utf8::valid_utf8_split(self.text(), self.cur());
        }
        match rex::captures_in(re, &hay) {
            None => {
                self.last = None;
                None
            },
            Some(rel) => {
                let names = rex::group_names(re);
                let m = build_caps(&self.buf, self.pos, &rel, names);
                let g0 = match rel[0] {
                    Some(p) => p,
                    None => {
                        proof {
                            assert(false);
                        }
                        (0, 0)
                    },
                };
                let a = self.pos + g0.0;
                let b = self.pos + g0.1;
                self.last = Some(m);
                Some((a, b))
            },
        }
    }

    /// Attempts `re` against the remaining text, from the cursor to the end.
    /// Patterns are expected to anchor themselves (`^`); the recorded group-0
    /// range says where the match actually fell. On a match, records the
    /// capture set wholesale, advances the cursor to the end of the whole
    /// match and returns everything consumed; on a miss, clears the recorded
    /// match and leaves the cursor alone.
    pub fn scan(&mut self, re: &Regex) -> (r: Option<String>)
        requires
            old(self).wf(),
            is_char_boundary(old(self).text(), old(self).cur()),
        ensures
            final(self).wf(),
            final(self).text() == old(self).text(),
            (r is Some) == (final(self).last_caps() is Some),
            (r is Some) == (rex::caps_of(
                *re,
                old(self).text().subrange(old(self).cur(), old(self).text().len() as int),
            ) is Some),
            records_attempt(*old(self), *final(self), *re),
            match r {
                None => final(self).cur() == old(self).cur() && final(self).last_caps() is None,
                Some(s) => {
                    &&& final(self).last_caps() matches Some(m)
                    &&& m.ranges()[0] matches Some(g0)
                    &&& old(self).cur() <= g0.0 <= g0.1 <= final(self).text().len()
                    &&& final(self).cur() == g0.1
                    &&& is_char_boundary(final(self).text(), final(self).cur())
                    &&& s@ == decode_utf8(
                        final(self).text().subrange(old(self).cur(), g0.1),
                    )
                    &&& (g0.0 == old(self).cur() ==> final(self).cur() == old(self).cur() + (
                    g0.1 - g0.0))
                    &&& (g0.0 == old(self).cur() ==> m.texts()[0] == Some(s@))
                },
            },
    {
        match self.attempt(re) {
            None => None,
            Some(g0) => {
                proof {
                    text::lemma_subrange_valid(self.text(), self.cur(), g0.1 as int);
                }
                let bytes = text::copy_range(&self.buf, self.pos, g0.1);
                let s = text::bytes_to_string(bytes);
                self.pos = g0.1;
                Some(s)
            },
        }
    }

    /// Attempts `re` against the remaining text exactly as `scan` does — the
    /// recorded match is replaced on success and cleared on a miss — but
    /// never moves the cursor, whatever the outcome.
    pub fn check(&mut self, re: &Regex) -> (r: bool)
        requires
            old(self).wf(),
            is_char_boundary(old(self).text(), old(self).cur()),
        ensures
            final(self).wf(),
            final(self).text() == old(self).text(),
            final(self).cur() == old(self).cur(),
            r == (final(self).last_caps() is Some),
            r == (rex::caps_of(
                *re,
                old(self).text().subrange(old(self).cur(), old(self).text().len() as int),
            ) is Some),
            records_attempt(*old(self), *final(self), *re),
            r ==> ({
                &&& final(self).last_caps() matches Some(m)
                &&& m.ranges()[0] matches Some(g0)
                &&& old(self).cur() <= g0.0 <= g0.1 <= final(self).text().len()
            }),
    {
        match self.attempt(re) {
            None => false,
            Some(_) => true,
        }
    }

    /// The capture set of the most recent match attempt, or `None` when that
    /// attempt failed or none has been made.
    pub fn captures(&self) -> (r: Option<&MatchCaps>)
        requires
            self.wf(),
        ensures
            match r {
                None => self.last_caps() is None,
                Some(m) => self.last_caps() == Some(*m) && m.caps_wf(self.text()),
            },
    {
        match &self.last {
            Some(m) => Some(m),
            None => None,
        }
    }

    /// The substring of capture group `i` of the most recent match attempt —
    /// group 0 is the whole match — or `None` when there is no recorded
    /// match, the index is out of range, or the group did not participate.
    pub fn match_at(&self, i: usize) -> (r: Option<String>)
        requires
            self.wf(),
        ensures
            match self.last_caps() {
                None => r is None,
                Some(m) => match r {
                    Some(s) => {
                        &&& i < m.ranges().len()
                        &&& m.ranges()[i as int] matches Some(g)
                        &&& m.texts()[i as int] == Some(s@)
                        &&& s@ == decode_utf8(self.text().subrange(g.0, g.1))
                    },
                    None => i >= m.ranges().len() || m.ranges()[i as int] is None,
                },
            },
    {
        match &self.last {
            Some(m) => m.at(i),
            None => None,
        }
    }

    /// The substring of the capture group named `name` in the most recent
    /// match attempt, or `None` when there is no recorded match, no group
    /// carries that name, or the group did not participate.
    pub fn match_name(&self, name: &str) -> (r: Option<String>)
        requires
            self.wf(),
        ensures
            match self.last_caps() {
                None => r is None,
                Some(m) => match name_index(m.names_view(), name@) {
                    None => r is None,
                    Some(j) => match r {
                        Some(s) => {
                            &&& j < m.ranges().len()
                            &&& m.ranges()[j] matches Some(g)
                            &&& m.texts()[j] == Some(s@)
                            &&& s@ == decode_utf8(self.text().subrange(g.0, g.1))
                        },
                        None => j >= m.ranges().len() || m.ranges()[j] is None,
                    },
                },
            },
    {
        match &self.last {
            Some(m) => {
                proof {
                    lemma_name_index_in_range(m.names_view(), name@);
                }
                m.name(name)
            },
            None => None,
        }
    }
}

/// The group range reported relative to the haystack, shifted to an absolute
/// byte range of the whole text.
pub open spec fn abs_range(pos: int, p: Option<(usize, usize)>) -> Option<(int, int)> {
    match p {
        Some(q) => Some((pos + q.0, pos + q.1)),
        None => None,
    }
}

/// What a match attempt with `re`, made from state `s0`, leaves recorded in
/// state `s1`: nothing when the engine's answer for the remaining text is
/// "no match", else exactly the engine's groups, shifted to absolute byte
/// offsets, together with the pattern's group names.
pub open spec fn records_attempt(s0: StringScanner, s1: StringScanner, re: Regex) -> bool {
    match rex::caps_of(re, s0.text().subrange(s0.cur(), s0.text().len() as int)) {
        None => s1.last_caps() is None,
        Some(g) => match s1.last_caps() {
            Some(m) => {
                &&& m.ranges().len() == g.len()
                &&& (forall|i: int|
                    0 <= i < g.len() ==> m.ranges()[i] == abs_range(s0.cur(), #[trigger] g[i]))
                &&& m.names_view() == rex::names_of(re)
            },
            None => false,
        },
    }
}

/// What `build_caps` records for one reported group: the shifted range, on
/// character boundaries of the text, and the decoded substring it covers.
spec fn built_group(buf: Seq<u8>, pos: int, p: Option<(usize, usize)>, g: Option<CapGroup>) -> bool {
    match p {
        Some(q) => match g {
            Some(c) => {
                &&& c.start == pos + q.0
                &&& c.end == pos + q.1
                &&& c.end <= buf.len()
                &&& is_char_boundary(buf, c.start as int)
                &&& is_char_boundary(buf, c.end as int)
                &&& valid_utf8(buf.subrange(c.start as int, c.end as int))
                &&& c.chars@ == decode_utf8(buf.subrange(c.start as int, c.end as int))
            },
            None => false,
        },
        None => g is None,
    }
}

/// Builds the record of a successful match: each group's range, shifted from
/// haystack-relative to absolute byte offsets, together with the decoded
/// substring it covered.
fn build_caps(
    buf: &Vec<u8>,
    pos: usize,
    rel: &Vec<Option<(usize, usize)>>,
    names: Vec<Option<String>>,
) -> (m: MatchCaps)
    requires
        pos <= buf@.len(),
        valid_utf8(buf@),
        is_char_boundary(buf@, pos as int),
        rel@.len() >= 1,
        rel@[0] is Some,
        forall|i: int|
            0 <= i < rel@.len() ==> rex::group_ok(
                #[trigger] rel@[i],
                buf@.subrange(pos as int, buf@.len() as int),
            ),
    ensures
        m.caps_wf(buf@),
        m.ranges().len() == rel@.len(),
        forall|i: int|
            0 <= i < rel@.len() ==> m.ranges()[i] == abs_range(pos as int, #[trigger] rel@[i]),
        m.names_view() == rex::names_as_view(names@),
{
    let ghost hay = buf@.subrange(pos as int, buf@.len() as int);
    let mut groups: Vec<Option<CapGroup>> = Vec::new();
    let mut i: usize = 0;
    while i < rel.len()
        invariant
            pos <= buf@.len(),
            valid_utf8(buf@),
            is_char_boundary(buf@, pos as int),
            hay == buf@.subrange(pos as int, buf@.len() as int),
            forall|j: int| 0 <= j < rel@.len() ==> rex::group_ok(#[trigger] rel@[j], hay),
            i <= rel@.len(),
            groups@.len() == i,
            forall|j: int|
                0 <= j < i ==> built_group(buf@, pos as int, #[trigger] rel@[j], groups@[j]),
        decreases rel@.len() - i,
    {
        match rel[i] {
            Some(p) => {
                proof {
                    assert(buf.len() == buf@.len());
                    vstd::utf8::valid_utf8_split(buf@, pos as int);
                    assert(p.0 <= p.1 <= hay.len());
                    text::lemma_boundary_offset(buf@, pos as int, p.0 as int);
                    text::lemma_boundary_offset(buf@, pos as int, p.1 as int);
                    text::lemma_subrange_valid(buf@, pos + p.0 as int, pos + p.1 as int);
                }
                let s = pos + p.0;
                let e = pos + p.1;
                let chars = text::bytes_to_string(text::copy_range(buf, s, e));
                groups.push(Some(CapGroup { start: s, end: e, chars }));
            },
            None => {
                groups.push(None);
            },
        }
        i = i + 1;
    }
    let m = MatchCaps { groups, names };
    proof {
        assert(m.ranges() =~= groups@.map_values(
            |g: Option<CapGroup>|
                match g {
                    Some(c) => Some((c.start as int, c.end as int)),
                    None => None,
                },
        ));
        assert forall|j: int| 0 <= j < m.ranges().len() implies (match #[trigger] m.ranges()[j] {
            Some(g) => 0 <= g.0 <= g.1 <= buf@.len() && (valid_utf8(buf@) ==> is_char_boundary(
                buf@,
                g.0,
            ) && is_char_boundary(buf@, g.1) && valid_utf8(buf@.subrange(g.0, g.1))
                && m.texts()[j] == Some(decode_utf8(buf@.subrange(g.0, g.1)))),
            None => m.texts()[j] is None,
        }) by {
            assert(built_group(buf@, pos as int, rel@[j], groups@[j]));
        }
        assert forall|j: int| 0 <= j < rel@.len() implies m.ranges()[j] == abs_range(
            pos as int,
            #[trigger] rel@[j],
        ) by {
            assert(built_group(buf@, pos as int, rel@[j], groups@[j]));
        }
        assert(built_group(buf@, pos as int, rel@[0], groups@[0]));
        assert(m.ranges()[0] is Some);
    }
    m
}

/// Consuming a line-feed character leaves the cursor at the beginning of a
/// line: a stretch of text that decodes to `"\n"` is exactly the one
/// line-feed byte before the new cursor.
pub proof fn lemma_bol_after_linefeed(text: Seq<u8>, pos: int, new_pos: int)
    requires
        0 <= pos <= new_pos <= text.len(),
        valid_utf8(text.subrange(pos, new_pos)),
        decode_utf8(text.subrange(pos, new_pos)) == seq!['\n'],
    ensures
        new_pos == pos + 1,
        bol_at(text, new_pos),
{
    let sub = text.subrange(pos, new_pos);
    vstd::utf8::decode_utf8_encode_utf8(sub);
    let c: char = '\n';
    let one = seq![c];
    assert(c as u32 == 10);
    assert((10u32 & 0x7F) as u8 == 10u8) by (bit_vector);
    assert(vstd::utf8::has_width_1_encoding(10u32));
    assert(vstd::utf8::leading_byte_width_1(10u32) == 10u8);
    assert(vstd::utf8::encode_scalar(c as u32) =~= seq![10u8]);
    assert(one[0] == c && one.len() == 1);
    assert(one.drop_first() =~= Seq::<char>::empty());
    assert(encode_utf8(Seq::<char>::empty()) =~= Seq::<u8>::empty());
    assert(encode_utf8(one) == vstd::utf8::encode_scalar(one[0] as u32) + encode_utf8(
        one.drop_first(),
    ));
    assert(encode_utf8(one) =~= seq![10u8]);
    assert(sub =~= seq![10u8]);
    assert(text[new_pos - 1] == sub[0]);
}

/// Match attempts are deterministic: two attempts with the same pattern,
/// made from the same text and cursor, record observationally identical
/// captures. In particular `check` records exactly what `scan` from the
/// same state would, and repeating `check` repeats its outcome.
pub proof fn lemma_attempt_deterministic(
    s0a: StringScanner,
    s1a: StringScanner,
    s0b: StringScanner,
    s1b: StringScanner,
    re: Regex,
)
    requires
        s0a.text() == s0b.text(),
        s0a.cur() == s0b.cur(),
        records_attempt(s0a, s1a, re),
        records_attempt(s0b, s1b, re),
        s1a.wf(),
        s1b.wf(),
        s1a.text() == s0a.text(),
        s1b.text() == s0b.text(),
    ensures
        (s1a.last_caps() is Some) == (s1b.last_caps() is Some),
        match (s1a.last_caps(), s1b.last_caps()) {
            (Some(ma), Some(mb)) => ma.ranges() == mb.ranges() && ma.texts() == mb.texts()
                && ma.names_view() == mb.names_view(),
            _ => true,
        },
{
    let rest = s0a.text().subrange(s0a.cur(), s0a.text().len() as int);
    match rex::caps_of(re, rest) {
        None => {},
        Some(g) => {
            let ma = s1a.last_caps()->Some_0;
            let mb = s1b.last_caps()->Some_0;
            assert forall|i: int| 0 <= i < g.len() implies ma.ranges()[i] == mb.ranges()[i] by {
                assert(ma.ranges()[i] == abs_range(s0a.cur(), g[i]));
                assert(mb.ranges()[i] == abs_range(s0b.cur(), g[i]));
            }
            assert(ma.ranges() =~= mb.ranges());
            assert forall|i: int| 0 <= i < ma.texts().len() implies ma.texts()[i]
                == mb.texts()[i] by {
                match ma.ranges()[i] {
                    Some(p) => {
                        assert(ma.texts()[i] == Some(
                            decode_utf8(s1a.text().subrange(p.0, p.1)),
                        ));
                        assert(mb.texts()[i] == Some(
                            decode_utf8(s1b.text().subrange(p.0, p.1)),
                        ));
                    },
                    None => {
                        assert(ma.texts()[i] is None);
                        assert(mb.texts()[i] is None);
                    },
                }
            }
            assert(ma.texts() =~= mb.texts());
        },
    }
}

} // verus!

use vstd::prelude::*;

verus! {

/// Index of the first explicit line break in `s`, or `s.len()` when there
/// is none.
pub open spec fn break_pos(s: Seq<char>) -> int
    decreases s.len(),
{
    if s.len() == 0 {
        0
    } else if s[0] == '\n' {
        0
    } else {
        1 + break_pos(s.drop_first())
    }
}

pub proof fn lemma_break_pos(s: Seq<char>)
    ensures
        0 <= break_pos(s) <= s.len(),
        forall|i: int| 0 <= i < break_pos(s) ==> s[i] != '\n',
        break_pos(s) < s.len() ==> s[break_pos(s)] == '\n',
    decreases s.len(),
{
    if s.len() == 0 {
    } else if s[0] == '\n' {
    } else {
        lemma_break_pos(s.drop_first());
        assert forall|i: int| 0 <= i < break_pos(s) implies s[i] != '\n' by {
            if i > 0 {
                assert(s.drop_first()[i - 1] == s[i]);
            }
        }
        if break_pos(s) < s.len() {
            assert(s.drop_first()[break_pos(s) - 1] == s[break_pos(s)]);
        }
    }
}

/// `break_pos` is the only position with no break strictly before it that
/// is either a break or the end.
pub proof fn lemma_break_pos_unique(s: Seq<char>, p: int)
    requires
        0 <= p <= s.len(),
        forall|i: int| 0 <= i < p ==> s[i] != '\n',
        p < s.len() ==> s[p] == '\n',
    ensures
        break_pos(s) == p,
    decreases s.len(),
{
    if s.len() == 0 {
    } else if s[0] == '\n' {
    } else {
        assert forall|i: int| 0 <= i < p - 1 implies s.drop_first()[i] != '\n' by {
            assert(s.drop_first()[i] == s[i + 1]);
        }
        if p - 1 < s.drop_first().len() {
            assert(s.drop_first()[p - 1] == s[p]);
        }
        lemma_break_pos_unique(s.drop_first(), p - 1);
    }
}

/// The first wrapped line of `s` at width `w`: everything up to an explicit
/// break that falls inside the window of `w` characters, otherwise exactly
/// the window (or all that remains, when less).
pub open spec fn wrap_first(s: Seq<char>, w: int) -> Seq<char> {
    let p = break_pos(s);
    s.take(if p <= w { p } else { w })
}

/// How many characters the first step consumes: the line itself, plus the
/// break character exactly when the break fell inside the window.
pub open spec fn wrap_consumed(s: Seq<char>, w: int) -> int {
    let p = break_pos(s);
    if p < s.len() && p <= w {
        p + 1
    } else if p <= w {
        p
    } else {
        w
    }
}

/// What remains to be wrapped after the first line is taken.
pub open spec fn wrap_rest(s: Seq<char>, w: int) -> Seq<char> {
    s.skip(wrap_consumed(s, w))
}

pub proof fn lemma_wrap_consumed(s: Seq<char>, w: int)
    requires
        w >= 1,
        s.len() > 0,
    ensures
        1 <= wrap_consumed(s, w) <= s.len(),
        wrap_first(s, w).len() <= wrap_consumed(s, w),
        wrap_first(s, w).len() <= w,
{
    lemma_break_pos(s);
}

/// All wrapped lines of `s` at width `w`, in order.
pub open spec fn wrap_lines(s: Seq<char>, w: int) -> Seq<Seq<char>>
    decreases s.len() when w >= 1 via wrap_lines_decreases
{
    if s.len() == 0 {
        Seq::empty()
    } else {
        seq![wrap_first(s, w)] + wrap_lines(wrap_rest(s, w), w)
    }
}

#[via_fn]
proof fn wrap_lines_decreases(s: Seq<char>, w: int) {
    if s.len() > 0 {
        lemma_wrap_consumed(s, w);
    }
}

/// Every wrapped line is at most `w` characters long.
pub proof fn lemma_wrap_lines_fit(s: Seq<char>, w: int)
    requires
        w >= 1,
    ensures
        forall|i: int|
            0 <= i < wrap_lines(s, w).len() ==> #[trigger] wrap_lines(s, w)[i].len() <= w,
    decreases s.len(),
{
    if s.len() == 0 {
    } else {
        lemma_wrap_consumed(s, w);
        lemma_wrap_lines_fit(wrap_rest(s, w), w);
        assert forall|i: int|
            0 <= i < wrap_lines(s, w).len() implies #[trigger] wrap_lines(s, w)[i].len()
            <= w by {
            if i > 0 {
                assert(wrap_lines(s, w)[i] == wrap_lines(wrap_rest(s, w), w)[i - 1]);
            }
        }
    }
}

/// Wrapping a sequence that contains no explicit line break at width `w`
/// yields exactly `ceil(len / w)` lines, each at most `w` characters long,
/// and their concatenation is the original sequence.
pub proof fn lemma_wrap_no_breaks(s: Seq<char>, w: int)
    requires
        w >= 1,
        forall|i: int| 0 <= i < s.len() ==> s[i] != '\n',
    ensures
        wrap_lines(s, w).len() == (s.len() + w - 1) / w,
        forall|i: int|
            0 <= i < wrap_lines(s, w).len() ==> #[trigger] wrap_lines(s, w)[i].len() <= w,
        wrap_lines(s, w).flatten() == s,
    decreases s.len(),
{
    lemma_wrap_lines_fit(s, w);
    if s.len() == 0 {
        assert(wrap_lines(s, w).flatten() =~= s);
        assert((s.len() + w - 1) / w == 0) by {
            vstd::arithmetic::div_mod::lemma_basic_div(w - 1, w);
        }
    } else {
        lemma_break_pos_unique(s, s.len() as int);
        let first = wrap_first(s, w);
        let rest = wrap_rest(s, w);
        assert(rest.len() == s.len() - first.len());
        assert forall|i: int| 0 <= i < rest.len() implies rest[i] != '\n' by {
            assert(rest[i] == s[wrap_consumed(s, w) + i]);
        }
        lemma_wrap_no_breaks(rest, w);
        assert(wrap_lines(s, w).drop_first() =~= wrap_lines(rest, w));
        assert(wrap_lines(s, w).first() == first);
        assert(wrap_lines(s, w).flatten() == first + wrap_lines(rest, w).flatten());
        assert(first + rest =~= s);
        if s.len() <= w {
            assert(rest.len() == 0);
            assert((s.len() + w - 1) / w == 1) by {
                vstd::arithmetic::div_mod::lemma_div_plus_one(s.len() - 1, w);
                vstd::arithmetic::div_mod::lemma_basic_div(s.len() - 1, w);
            }
        } else {
            assert(first.len() == w);
            assert((s.len() + w - 1) / w == 1 + (rest.len() + w - 1) / w) by {
                vstd::arithmetic::div_mod::lemma_div_plus_one(s.len() - 1, w);
            }
        }
    }
}

/// There are never more wrapped lines than characters: every step consumes
/// at least one character.
pub proof fn lemma_wrap_lines_count(s: Seq<char>, w: int)
    requires
        w >= 1,
    ensures
        wrap_lines(s, w).len() <= s.len(),
    decreases s.len(),
{
    if s.len() > 0 {
        lemma_wrap_consumed(s, w);
        lemma_wrap_lines_count(wrap_rest(s, w), w);
    }
}

/// A lazy, forward-only hard-wrapping splitter: each call of `next` yields
/// the next fixed-width line of the sequence it was built over, honoring
/// explicit line breaks, until the sequence is exhausted.
pub struct HardwrappingText {
    pub text: Vec<char>,
    pub width: usize,
    pub pos: usize,
}

impl HardwrappingText {
    /// The splitter is mid-sequence and wraps at a positive width.
    pub open spec fn wf(self) -> bool {
        self.pos <= self.text@.len() && self.width >= 1
    }

    /// The characters not yet consumed.
    pub open spec fn remaining(self) -> Seq<char> {
        self.text@.skip(self.pos as int)
    }

    /// A fresh splitter over all of `text`.
    pub fn new(text: &Vec<char>, width: usize) -> (r: HardwrappingText)
        requires
            width >= 1,
        ensures
            r.wf(),
            r.text@ == text@,
            r.width == width,
            r.remaining() == text@,
    {
        let mut copy: Vec<char> = Vec::new();
        let mut i: usize = 0;
        while i < text.len()
            invariant
                i <= text@.len(),
                copy@ == text@.take(i as int),
            decreases text@.len() - i,
        {
            copy.push(text[i]);
            proof {
                assert(copy@ =~= text@.take(i + 1));
            }
            i = i + 1;
        }
        proof {
            assert(text@.take(text@.len() as int) =~= text@);
        }
        let r = HardwrappingText { text: copy, width, pos: 0 };
        proof {
            assert(r.remaining() =~= text@);
        }
        r
    }

    /// Yields the next wrapped line, or nothing once the text is exhausted.
    /// A break inside the current window ends the line and is consumed
    /// without being emitted; otherwise the line is exactly the window (or
    /// what remains) and no boundary character is consumed.
    pub fn next(&mut self) -> (r: Option<Vec<char>>)
        requires
            old(self).wf(),
        ensures
            final(self).wf(),
            final(self).text == old(self).text,
            final(self).width == old(self).width,
            old(self).remaining().len() == 0 ==> r is None && *final(self) == *old(self),
            old(self).remaining().len() > 0 ==> {
                &&& r matches Some(line) && line@ == wrap_first(
                    old(self).remaining(),
                    old(self).width as int,
                )
                &&& final(self).remaining() == wrap_rest(
                    old(self).remaining(),
                    old(self).width as int,
                )
                &&& final(self).remaining().len() < old(self).remaining().len()
            },
    {
        let remaining_len = self.text.len() - self.pos;
        if remaining_len == 0 {
            return None;
        }
        let ghost rem = self.remaining();
        let ghost w = self.width as int;
        let mut k: usize = 0;
        let mut found = false;
        while k < remaining_len && !found
            invariant
                self.wf(),
                rem == self.remaining(),
                remaining_len == rem.len(),
                k <= remaining_len,
                forall|j: int| 0 <= j < k ==> rem[j] != '\n',
                found ==> k < remaining_len && rem[k as int] == '\n',
                !found ==> k <= remaining_len,
            decreases remaining_len - k + (if found { 0int } else { 1int }),
        {
            proof {
                assert(self.pos + k < self.text.len());
            }
            if self.text[self.pos + k] == '\n' {
                found = true;
            } else {
                k = k + 1;
            }
        }
        let line_end = if found {
            k
        } else {
            remaining_len
        };
        proof {
            lemma_break_pos_unique(rem, line_end as int);
        }
        let hard_end = if self.width < line_end {
            self.width
        } else {
            line_end
        };
        let strip: usize = if found && line_end <= self.width {
            1
        } else {
            0
        };
        let mut line: Vec<char> = Vec::new();
        let mut i: usize = 0;
        while i < hard_end
            invariant
                self.wf(),
                rem == self.remaining(),
                hard_end <= rem.len(),
                i <= hard_end,
                line@ == rem.take(hard_end as int).take(i as int),
            decreases hard_end - i,
        {
            proof {
                assert(self.pos + i < self.text.len());
            }
            line.push(self.text[self.pos + i]);
            proof {
                assert(line@ =~= rem.take(hard_end as int).take(i + 1));
            }
            i = i + 1;
        }
        proof {
            assert(rem.take(hard_end as int).take(hard_end as int) =~= rem.take(hard_end as int));
            assert(line@ == wrap_first(rem, w));
            assert(hard_end + strip == wrap_consumed(rem, w));
        }
        self.pos = self.pos + hard_end + strip;
        proof {
            assert(self.remaining() =~= rem.skip(wrap_consumed(rem, w)));
            lemma_wrap_consumed(rem, w);
        }
        Some(line)
    }
}

/// Counts the wrapped lines of `text` at width `width` by running a
/// splitter to exhaustion.
pub fn count_lines(text: &Vec<char>, width: usize) -> (r: usize)
    requires
        width >= 1,
    ensures
        r == wrap_lines(text@, width as int).len(),
{
    proof {
        lemma_wrap_lines_count(text@, width as int);
    }
    let mut wrapper = HardwrappingText::new(text, width);
    let mut count: usize = 0;
    loop
        invariant
            wrapper.wf(),
            wrapper.width == width,
            count + wrap_lines(wrapper.remaining(), width as int).len() == wrap_lines(
                text@,
                width as int,
            ).len(),
            wrap_lines(text@, width as int).len() <= text@.len(),
            count <= text.len(),
        ensures
            count == wrap_lines(text@, width as int).len(),
        decreases wrapper.remaining().len(),
    {
        let ghost rem = wrapper.remaining();
        match wrapper.next() {
            Some(_) => {
                proof {
                    assert(wrap_lines(rem, width as int) == seq![
                        wrap_first(rem, width as int),
                    ] + wrap_lines(wrap_rest(rem, width as int), width as int));
                    lemma_wrap_lines_count(rem, width as int);
                }
                count = count + 1;
            },
            None => {
                break;
            },
        }
    }
    count
}

} // verus!

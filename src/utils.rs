use vstd::prelude::*;
use vstd::string::StrSliceExecFns;

verus! {

/// The characters that separate words; each is a token of its own.
pub open spec fn is_ws(c: char) -> bool {
    c == ' ' || c == '\t' || c == '\r' || c == '\n'
}

pub fn is_space_char(c: char) -> (r: bool)
    ensures
        r == is_ws(c),
{
    c == ' ' || c == '\t' || c == '\r' || c == '\n'
}

/// Tokens of `s`, given that the word `cur` was read just before it: maximal runs of
/// non-separators, and every separator alone.
pub open spec fn split_from(s: Seq<char>, cur: Seq<char>) -> Seq<Seq<char>>
    decreases s.len(),
{
    if s.len() == 0 {
        if cur.len() == 0 {
            Seq::empty()
        } else {
            seq![cur]
        }
    } else if is_ws(s[0]) {
        (if cur.len() == 0 {
            Seq::empty()
        } else {
            seq![cur]
        }) + seq![seq![s[0]]] + split_from(s.drop_first(), Seq::empty())
    } else {
        split_from(s.drop_first(), cur.push(s[0]))
    }
}

/// The tokens of a text.
pub open spec fn split_words(s: Seq<char>) -> Seq<Seq<char>> {
    split_from(s, Seq::empty())
}

/// Relies on std's `String: FromIterator<&char>`: the string holds exactly the characters.
#[verifier::external_body]
pub(crate) fn string_from_chars(v: &Vec<char>) -> (r: String)
    ensures
        r@ == v@,
{
    v.iter().collect()
}

/// A tokenizer that hands out the words and separators of a text one at a time.
pub struct SplitWords {
    pub chars: Vec<char>,
    pub pos: usize,
    pub buffer: Option<char>,
}

impl SplitWords {
    pub open spec fn wf(&self) -> bool {
        &&& self.pos <= self.chars@.len()
        &&& self.buffer matches Some(c) ==> is_ws(c)
    }

    /// The tokens still to come.
    pub open spec fn pending(&self) -> Seq<Seq<char>> {
        let rest = split_words(self.chars@.skip(self.pos as int));
        match self.buffer {
            Some(c) => seq![seq![c]] + rest,
            None => rest,
        }
    }

    pub open spec fn measure(&self) -> nat {
        ((self.chars@.len() - self.pos) * 2 + if self.buffer is Some {
            1int
        } else {
            0int
        }) as nat
    }

    pub fn new(s: &str) -> (r: SplitWords)
        ensures
            r.wf(),
            r.pending() == split_words(s@),
    {
        let n = s.unicode_len();
        let mut chars: Vec<char> = Vec::new();
        let mut i: usize = 0;
        while i < n
            invariant
                i <= n == s@.len(),
                chars@ == s@.take(i as int),
            decreases n - i,
        {
            chars.push(s.get_char(i));
            i += 1;
            assert(chars@ =~= s@.take(i as int));
        }
        assert(s@.take(i as int) =~= s@);
        assert(chars@.skip(0) =~= chars@);
        SplitWords { chars, pos: 0, buffer: None }
    }

    /// The next token, or `None` when the text is used up.
    pub fn next(&mut self) -> (r: Option<String>)
        requires
            old(self).wf(),
        ensures
            final(self).wf(),
            old(self).pending().len() == 0 ==> r is None && final(self).pending().len() == 0,
            old(self).pending().len() > 0 ==> {
                &&& r is Some
                &&& r->Some_0@ == old(self).pending()[0]
                &&& final(self).pending() == old(self).pending().drop_first()
                &&& final(self).measure() < old(self).measure()
            },
    {
        if let Some(c) = self.buffer {
            self.buffer = None;
            let mut v: Vec<char> = Vec::new();
            v.push(c);
            let s = string_from_chars(&v);
            proof {
                assert(old(self).pending().drop_first() =~= final(self).pending());
            }
            return Some(s);
        }
        let ghost start = self.pos as int;
        let mut res: Vec<char> = Vec::new();
        proof {
            assert(self.chars@.skip(start) =~= self.chars@.skip(self.pos as int));
        }
        while self.pos < self.chars.len()
            invariant
                start <= self.pos <= self.chars@.len(),
                self.buffer is None,
                self.chars == old(self).chars,
                start == old(self).pos,
                old(self).buffer is None,
                split_words(self.chars@.skip(start)) == split_from(
                    self.chars@.skip(self.pos as int),
                    res@,
                ),
                res@.len() == self.pos - start,
            decreases self.chars@.len() - self.pos,
        {
            let c = self.chars[self.pos];
            let ghost rest = self.chars@.skip(self.pos as int);
            proof {
                assert(rest[0] == c);
                assert(rest.drop_first() =~= self.chars@.skip(self.pos + 1));
            }
            self.pos = self.pos + 1;
            if is_space_char(c) {
                if res.len() == 0 {
                    let mut v: Vec<char> = Vec::new();
                    v.push(c);
                    let s = string_from_chars(&v);
                    proof {
                        assert(split_from(rest, res@) =~= seq![seq![c]] + split_words(
                            self.chars@.skip(self.pos as int),
                        ));
                        assert(v@ =~= seq![c]);
                    }
                    return Some(s);
                } else {
                    self.buffer = Some(c);
                    let s = string_from_chars(&res);
                    proof {
                        assert(split_from(rest, res@) =~= seq![res@] + (seq![seq![c]]
                            + split_words(self.chars@.skip(self.pos as int))));
                    }
                    return Some(s);
                }
            } else {
                res.push(c);
            }
        }
        proof {
            assert(self.chars@.skip(self.pos as int) =~= Seq::<char>::empty());
        }
        if res.len() == 0 {
            None
        } else {
            let s = string_from_chars(&res);
            proof {
                assert(split_words(self.chars@.skip(self.pos as int)) =~= Seq::<Seq<char>>::empty());
            }
            Some(s)
        }
    }

    /// All the tokens still to come, in order.
    pub fn collect_words(&mut self) -> (r: Vec<String>)
        requires
            old(self).wf(),
        ensures
            r@.map_values(|s: String| s@) == old(self).pending(),
    {
        let mut out: Vec<String> = Vec::new();
        loop
            invariant
                self.wf(),
                out@.map_values(|s: String| s@) + self.pending() == old(self).pending(),
            decreases self.measure(),
        {
            let ghost before = self.pending();
            match self.next() {
                Some(s) => {
                    out.push(s);
                    proof {
                        let all = old(self).pending();
                        assert(out@.map_values(|s: String| s@) + self.pending() =~= all);
                    }
                },
                None => {
                    assert(out@.map_values(|s: String| s@) =~= old(self).pending());
                    return out;
                },
            }
        }
    }
}

} // verus!

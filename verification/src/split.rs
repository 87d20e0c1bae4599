//! Which attribute text the `htmlstream` tokenizer gets through.
//!
//! The tokenizer walks the text once and cuts an attribute out of it at each
//! blank and at each closing quote. One of its cuts can fall inside a
//! character, and there it panics: it takes a quoted value from the second
//! byte behind the first equals sign of the attribute, wherever the quote
//! opened. This module follows the walk far enough to say where that
//! happens, and nothing of what the tokenizer returns.

use vstd::prelude::*;
use vstd::std_specs::iter::IteratorSpec;

verus! {

/// Where the tokenizer stands in the text.
#[derive(Clone, Copy, Debug, PartialEq, Eq)]
pub enum Phase {
    /// Between two attributes.
    Between,
    /// In the name of an attribute.
    Name,
    /// Behind the first equals sign of an attribute.
    ValueStart,
    /// In a value, outside quotes.
    Value,
    /// In a value, inside quotes.
    Quoted,
    /// At a cut inside a character.
    Stuck,
}

/// What decides how the walk goes on.
pub struct Walk {
    pub phase: Phase,
    /// The value began with a character of more than one byte.
    pub wide: bool,
    /// The quote that is open.
    pub quote: char,
    /// How many characters were read when the last attribute ended.
    pub done: nat,
}

/// A character up to the blank ends an attribute outside quotes.
pub open spec fn is_blank(c: char) -> bool {
    c <= ' '
}

/// One of the two quote characters.
pub open spec fn is_quote(c: char) -> bool {
    c == '"' || c == '\''
}

/// A character that takes more than one byte.
pub open spec fn is_wide(c: char) -> bool {
    c as u32 >= 0x80
}

impl Walk {
    /// The walk before the first character.
    pub open spec fn start() -> Walk {
        Walk { phase: Phase::Between, wide: false, quote: '"', done: 0 }
    }

    /// The walk goes on in `phase`.
    pub open spec fn go(self, phase: Phase) -> Walk {
        Walk { phase, ..self }
    }

    /// An attribute ends with character `k`.
    pub open spec fn end(self, k: int) -> Walk {
        Walk { phase: Phase::Between, wide: false, quote: self.quote, done: (k + 1) as nat }
    }

    /// The walk after character `k` of `text`.
    ///
    /// Between attributes blanks are passed over, and any other character
    /// begins a name. In a name the first equals sign begins the value, and
    /// a blank ends the attribute. In a value a quote opens only directly
    /// behind an equals sign, and outside quotes a blank ends the attribute.
    /// Inside quotes only the quote that opened them ends the attribute;
    /// the value is then cut out from the second byte behind the equals sign
    /// that began it, and that place is inside a character where the value
    /// began with a wide one.
    pub open spec fn step(self, text: Seq<char>, k: int) -> Walk {
        let c = text[k];
        match self.phase {
            Phase::Between => if is_blank(c) {
                self
            } else {
                self.go(Phase::Name)
            },
            Phase::Name => if c == '=' {
                self.go(Phase::ValueStart)
            } else if is_blank(c) {
                self.end(k)
            } else {
                self
            },
            Phase::ValueStart => if is_quote(c) {
                Walk { phase: Phase::Quoted, wide: false, quote: c, done: self.done }
            } else if is_blank(c) {
                self.end(k)
            } else {
                Walk { phase: Phase::Value, wide: is_wide(c), quote: self.quote, done: self.done }
            },
            Phase::Value => if is_quote(c) {
                if text[k - 1] == '=' {
                    Walk { phase: Phase::Quoted, quote: c, ..self }
                } else {
                    self
                }
            } else if is_blank(c) {
                self.end(k)
            } else {
                self
            },
            Phase::Quoted => if c == self.quote {
                if self.wide {
                    self.go(Phase::Stuck)
                } else {
                    self.end(k)
                }
            } else {
                self
            },
            Phase::Stuck => self,
        }
    }

    /// The walk after the first `k` characters of `text`.
    pub open spec fn after(text: Seq<char>, k: nat) -> Walk
        decreases k,
    {
        if k == 0 {
            Walk::start()
        } else {
            Walk::after(text, (k - 1) as nat).step(text, k - 1)
        }
    }
}

/// Attribute text that the tokenizer gets through: no cut of its walk falls
/// inside a character.
pub open spec fn attribute_text_readable(text: Seq<char>) -> bool {
    !(Walk::after(text, text.len()).phase is Stuck)
}

/// How much of the text the tokenizer has cut into attributes before it
/// stops: all of it where it gets through, else the part up to the end of
/// the last attribute before the cut that it cannot make.
pub open spec fn readable_len(text: Seq<char>) -> nat {
    let end = Walk::after(text, text.len());
    if end.phase is Stuck {
        end.done
    } else {
        text.len()
    }
}

/// The part of the text that the tokenizer cuts into attributes.
pub open spec fn readable_part(text: Seq<char>) -> Seq<char> {
    text.take(readable_len(text) as int)
}

/// The walk over the start of a text is the start of the walk over the
/// text.
pub proof fn lemma_walk_of_prefix(text: Seq<char>, m: nat, k: nat)
    requires
        k <= m <= text.len(),
    ensures
        Walk::after(text.take(m as int), k) == Walk::after(text, k),
    decreases k,
{
    if k > 0 {
        lemma_walk_of_prefix(text, m, (k - 1) as nat);
    }
}

/// Where the last attribute ended, the walk stood between attributes.
pub proof fn lemma_walk_at_done(text: Seq<char>, k: nat)
    requires
        k <= text.len(),
    ensures
        Walk::after(text, k).done <= k,
        Walk::after(text, Walk::after(text, k).done).phase is Between,
    decreases k,
{
    if k > 0 {
        lemma_walk_at_done(text, (k - 1) as nat);
    }
}

/// The part that the tokenizer cuts into attributes is text that it gets
/// through, and of text that it gets through it is the whole.
pub proof fn lemma_readable_part(text: Seq<char>)
    ensures
        readable_len(text) <= text.len(),
        attribute_text_readable(readable_part(text)),
        attribute_text_readable(text) ==> readable_part(text) == text,
{
    let m = readable_len(text);
    lemma_walk_at_done(text, text.len());
    lemma_walk_of_prefix(text, m, m);
    if attribute_text_readable(text) {
        assert(text.take(text.len() as int) =~= text);
    }
}

/// Follows the tokenizer through `text`: tells whether it gets through, and
/// how many characters it has cut into attributes before it stops.
pub fn walk_attribute_text(text: &str) -> (end: (bool, usize))
    ensures
        end.0 == attribute_text_readable(text@),
        end.1 == readable_len(text@),
{
    let total = text.unicode_len();
    let mut rest = text.chars();
    let mut seen: usize = 0;
    let mut phase = Phase::Between;
    let mut wide = false;
    let mut quote = '"';
    let mut done: usize = 0;
    let mut after_equals = false;
    loop
        invariant
            total == text@.len(),
            seen <= total,
            rest.obeys_prophetic_iter_laws(),
            rest.remaining() == text@.skip(seen as int),
            after_equals == (seen > 0 && text@[seen - 1] == '='),
            done <= seen,
            Walk::after(text@, seen as nat) == (Walk { phase, wide, quote, done: done as nat }),
        ensures
            Walk::after(text@, text@.len()) == (Walk { phase, wide, quote, done: done as nat }),
            done <= total,
            total == text@.len(),
        decreases total - seen,
    {
        match rest.next() {
            Some(c) => {
                assert(c == text@[seen as int]);
                proof {
                    assert(text@.skip(seen as int).drop_first() =~= text@.skip(seen + 1));
                }
                let blank = c <= ' ';
                let is_quote = c == '"' || c == '\'';
                match phase {
                    Phase::Between => {
                        if !blank {
                            phase = Phase::Name;
                        }
                    },
                    Phase::Name => {
                        if c == '=' {
                            phase = Phase::ValueStart;
                        } else if blank {
                            phase = Phase::Between;
                            wide = false;
                            done = seen + 1;
                        }
                    },
                    Phase::ValueStart => {
                        if is_quote {
                            phase = Phase::Quoted;
                            wide = false;
                            quote = c;
                        } else if blank {
                            phase = Phase::Between;
                            wide = false;
                            done = seen + 1;
                        } else {
                            phase = Phase::Value;
                            wide = c as u32 >= 0x80;
                        }
                    },
                    Phase::Value => {
                        if is_quote {
                            if after_equals {
                                phase = Phase::Quoted;
                                quote = c;
                            }
                        } else if blank {
                            phase = Phase::Between;
                            wide = false;
                            done = seen + 1;
                        }
                    },
                    Phase::Quoted => {
                        if c == quote {
                            if wide {
                                phase = Phase::Stuck;
                            } else {
                                phase = Phase::Between;
                                wide = false;
                                done = seen + 1;
                            }
                        }
                    },
                    Phase::Stuck => {},
                }
                after_equals = c == '=';
                seen = seen + 1;
            },
            None => {
                break ;
            },
        }
    }
    match phase {
        Phase::Stuck => (false, done),
        _ => (true, total),
    }
}

} // verus!

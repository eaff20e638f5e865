use vstd::prelude::*;
use vstd::string::*;

verus! {

/// A counter that hands out consecutive numbers, starting at zero.
pub struct AtomicInt(u32);

impl AtomicInt {
    /// The number that the next call of `get_and_inc` returns.
    pub closed spec fn value(&self) -> u32 {
        self.0
    }

    pub fn new() -> (r: Self)
        ensures
            r.value() == 0,
    {
        AtomicInt(0)
    }

    /// Returns the current number and moves on to the next one.
    pub fn get_and_inc(&mut self) -> (r: u32)
        requires
            old(self).value() < u32::MAX,
        ensures
            r == old(self).value(),
            final(self).value() == r + 1,
    {
        let x = self.0;
        self.0 += 1;
        x
    }
}

/// The regular expression that a label prefix must not match: an underscore
/// followed by digits at the very end is where the generator puts its counter.
pub const COUNTER_SUFFIX: &'static str = r".*(_\d+)$";

/// The verdict of the `regex` crate on `pattern` and `text`: `None` where
/// `pattern` is not accepted as a regular expression, otherwise whether the
/// expression matches somewhere in `text`.
pub uninterp spec fn regex_search(pattern: Seq<char>, text: Seq<char>) -> Option<bool>;

/// Compiles the expression with `regex::Regex::new` and searches the text with
/// `Regex::is_match`. Nothing is claimed about the verdict beyond its being
/// determined by the pattern and the text; the pattern is fixed to the one
/// this library uses, so that no limit on the size of a compiled expression
/// comes into play.
#[verifier::external_body]
fn regex_is_match(pattern: &str, text: &str) -> (r: Option<bool>)
    requires
        pattern@ == COUNTER_SUFFIX@,
    ensures
        r == regex_search(pattern@, text@),
{
    match regex::Regex::new(pattern) {
        Ok(re) => Some(re.is_match(text)),
        Err(_) => None,
    }
}

/// Whether `prefix` may start a label: the suffix expression was accepted and
/// found no match in it.
pub open spec fn prefix_allowed(prefix: Seq<char>) -> bool {
    regex_search(COUNTER_SUFFIX@, prefix) == Some(false)
}

/// The decimal digit for a number below ten.
pub open spec fn digit_char(d: nat) -> char {
    if d == 0 {
        '0'
    } else if d == 1 {
        '1'
    } else if d == 2 {
        '2'
    } else if d == 3 {
        '3'
    } else if d == 4 {
        '4'
    } else if d == 5 {
        '5'
    } else if d == 6 {
        '6'
    } else if d == 7 {
        '7'
    } else if d == 8 {
        '8'
    } else {
        '9'
    }
}

/// The decimal numeral of `n`, without leading zeros.
pub open spec fn decimal(n: nat) -> Seq<char>
    decreases n,
{
    if n < 10 {
        seq![digit_char(n)]
    } else {
        decimal(n / 10).push(digit_char(n % 10))
    }
}

/// The label made of a prefix and a counter value: `prefix`, an underscore,
/// and the counter in decimal.
pub open spec fn label_text(prefix: Seq<char>, n: nat) -> Seq<char> {
    prefix + seq!['_'] + decimal(n)
}

fn digit_str(d: u32) -> (r: &'static str)
    requires
        d < 10,
    ensures
        r@ =~= seq![digit_char(d as nat)],
{
    proof {
        reveal_strlit("0");
        reveal_strlit("1");
        reveal_strlit("2");
        reveal_strlit("3");
        reveal_strlit("4");
        reveal_strlit("5");
        reveal_strlit("6");
        reveal_strlit("7");
        reveal_strlit("8");
        reveal_strlit("9");
    }
    if d == 0 {
        "0"
    } else if d == 1 {
        "1"
    } else if d == 2 {
        "2"
    } else if d == 3 {
        "3"
    } else if d == 4 {
        "4"
    } else if d == 5 {
        "5"
    } else if d == 6 {
        "6"
    } else if d == 7 {
        "7"
    } else if d == 8 {
        "8"
    } else {
        "9"
    }
}

/// Writes a number in decimal.
pub fn decimal_string(n: u32) -> (r: String)
    ensures
        r@ == decimal(n as nat),
    decreases n,
{
    if n < 10 {
        String::from_str(digit_str(n))
    } else {
        let head = decimal_string(n / 10);
        let r = head.concat(digit_str(n % 10));
        assert(r@ =~= decimal(n as nat));
        r
    }
}

/// Generates labels that differ from one another by a running counter.
pub struct LabelGenerator {
    counter: AtomicInt,
}

impl LabelGenerator {
    /// The counter value that the next label carries.
    pub closed spec fn next(&self) -> u32 {
        self.counter.value()
    }

    pub fn new() -> (r: Self)
        ensures
            r.next() == 0,
    {
        LabelGenerator { counter: AtomicInt::new() }
    }

    /// Creates a label with the given prefix. The prefix must not itself end
    /// in an underscore followed by a number.
    pub fn get_label(&mut self, prefix: &'static str) -> (r: String)
        requires
            prefix_allowed(prefix@),
            old(self).next() < u32::MAX,
        ensures
            r@ == label_text(prefix@, old(self).next() as nat),
            final(self).next() == old(self).next() + 1,
    {
        proof {
            reveal_strlit("_");
        }
        let n = self.counter.get_and_inc();
        let number = decimal_string(n);
        let r = String::from_str(prefix).concat("_").concat(number.as_str());
        assert("_"@ =~= seq!['_']);
        r
    }

    /// Creates a label as `get_label` does where the prefix is allowed and the
    /// counter is not used up; otherwise returns `None` and leaves the
    /// generator as it was.
    pub fn try_get_label(&mut self, prefix: &'static str) -> (r: Option<String>)
        ensures
            prefix_allowed(prefix@) && old(self).next() < u32::MAX ==> r is Some && r->0@
                == label_text(prefix@, old(self).next() as nat) && final(self).next() == old(self).next() + 1,
            !(prefix_allowed(prefix@) && old(self).next() < u32::MAX) ==> r is None && *final(self)
                == *old(self),
    {
        match regex_is_match(COUNTER_SUFFIX, prefix) {
            Some(false) => {
                if self.counter.0 < u32::MAX {
                    Some(self.get_label(prefix))
                } else {
                    None
                }
            },
            _ => None,
        }
    }
}

/// Beginning and end (as byte offsets) of a token in the source text.
#[derive(Debug, Clone, Copy, PartialEq, Eq, Structural)]
pub struct Location(pub usize, pub usize);

impl Location {
    pub fn new(begin: usize, end: usize) -> (r: Self)
        ensures
            r == Location(begin, end),
    {
        Location(begin, end)
    }
}

} // verus!

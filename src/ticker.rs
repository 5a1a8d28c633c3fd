use vstd::prelude::*;
use vstd::string::StrSliceExecFns;
use vstd::string::StringExecFns;

verus! {

/// Character-wise equality of two strings.
pub fn str_eq(a: &str, b: &str) -> (r: bool)
    ensures
        r == (a@ == b@),
{
    let n = a.unicode_len();
    if n != b.unicode_len() {
        return false;
    }
    let mut i: usize = 0;
    while i < n
        invariant
            n == a@.len() == b@.len(),
            i <= n,
            a@.subrange(0, i as int) == b@.subrange(0, i as int),
        decreases n - i,
    {
        if a.get_char(i) != b.get_char(i) {
            proof {
                assert(a@[i as int] != b@[i as int]);
            }
            return false;
        }
        proof {
            assert(a@.subrange(0, i + 1) =~= a@.subrange(0, i as int).push(a@[i as int]));
            assert(b@.subrange(0, i + 1) =~= b@.subrange(0, i as int).push(b@[i as int]));
        }
        i = i + 1;
    }
    proof {
        assert(a@ =~= a@.subrange(0, n as int));
        assert(b@ =~= b@.subrange(0, n as int));
    }
    true
}

/// A market: the asset traded (`base`) against the asset it is priced in (`quote`).
#[derive(Debug, Eq, Hash)]
pub struct Ticker {
    pub base: String,
    pub quote: String,
}

impl PartialEq for Ticker {
    fn eq(&self, o: &Ticker) -> (r: bool) {
        self.base == o.base && self.quote == o.quote
    }
}

impl vstd::std_specs::cmp::PartialEqSpecImpl for Ticker {
    open spec fn obeys_eq_spec() -> bool {
        true
    }

    open spec fn eq_spec(&self, o: &Ticker) -> bool {
        self.base@ == o.base@ && self.quote@ == o.quote@
    }
}

impl Clone for Ticker {
    fn clone(&self) -> (r: Ticker)
        ensures
            r == *self,
    {
        Ticker { base: self.base.clone(), quote: self.quote.clone() }
    }
}

impl Ticker {
    /// Two tickers name the same market.
    pub open spec fn same(self, o: Ticker) -> bool {
        self.base@ == o.base@ && self.quote@ == o.quote@
    }

    pub fn new(base: &str, quote: &str) -> (r: Ticker)
        ensures
            r.base@ == base@,
            r.quote@ == quote@,
    {
        Ticker { base: String::from_str(base), quote: String::from_str(quote) }
    }

    /// Reads a symbol such as `BTCUSDT`: three characters of base, then three or four
    /// of quote.
    pub fn try_from(value: &str) -> (r: Result<Ticker, String>)
        ensures
            (value@.len() == 6 || value@.len() == 7) <==> r is Ok,
            r is Ok ==> r->Ok_0.base@ == value@.subrange(0, 3) && r->Ok_0.quote@
                == value@.subrange(3, value@.len() as int),
    {
        let n = value.unicode_len();
        if n == 6 || n == 7 {
            let base = value.substring_char(0, 3);
            let quote = value.substring_char(3, n);
            Ok(Ticker { base: String::from_str(base), quote: String::from_str(quote) })
        } else {
            Err(String::from_str("Could not convert to ticker"))
        }
    }

    /// The symbol: base followed by quote.
    pub fn to_string(&self) -> (r: String)
        ensures
            r@ == self.base@ + self.quote@,
    {
        let b = self.base.clone();
        b.concat(self.quote.as_str())
    }
}

} // verus!

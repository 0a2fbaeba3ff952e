//! The library's error value: a chain of human-readable messages, the
//! outermost context first and the root cause last, as `.context(..)`
//! builds it up while an error travels outward.
use vstd::prelude::*;
use crate::text::string_of;

verus! {

/// An error: `chain[0]` is the outermost context, the last entry the root cause.
#[derive(Debug)]
pub struct Error {
    pub chain: Vec<String>,
}

/// The messages of a chain of strings, as character sequences.
pub open spec fn chain_view(chain: Seq<String>) -> Seq<Seq<char>> {
    Seq::new(chain.len(), |i: int| chain[i]@)
}

impl View for Error {
    type V = Seq<Seq<char>>;

    open spec fn view(&self) -> Seq<Seq<char>> {
        chain_view(self.chain@)
    }
}

/// The alternate `Display` of a chain: its messages joined by `": "`.
pub open spec fn joined(c: Seq<Seq<char>>) -> Seq<char>
    decreases c.len(),
{
    if c.len() == 0 {
        Seq::empty()
    } else if c.len() == 1 {
        c[0]
    } else {
        joined(c.drop_last()) + ": "@ + c.last()
    }
}

impl Error {
    /// An error made of one message.
    pub fn msg(m: String) -> (e: Error)
        ensures
            e@ == seq![m@],
    {
        let mut chain: Vec<String> = Vec::new();
        chain.push(m);
        let e = Error { chain };
        assert(e@ =~= seq![m@]);
        e
    }

    /// An error of two messages: a fixed `phrase`, and after it the `detail`
    /// that it is about (text that the caller gave, kept out of the phrase).
    pub fn detailed(phrase: &str, detail: String) -> (e: Error)
        ensures
            e@ == seq![phrase@, detail@],
    {
        let e = Error::msg(detail).context(String::from_str(phrase));
        assert(e@ =~= seq![phrase@, detail@]);
        e
    }

    /// An error made of one message given as characters.
    pub fn from_chars(m: &[char]) -> (e: Error)
        ensures
            e@ == seq![m@],
    {
        Error::msg(string_of(m))
    }

    /// Wraps the error in one more context message, which becomes the outermost.
    pub fn context(self, m: String) -> (e: Error)
        ensures
            e@ == seq![m@] + self@,
    {
        let mut chain: Vec<String> = Vec::new();
        chain.push(m);
        let old_chain = self.chain;
        let mut i: usize = 0;
        while i < old_chain.len()
            invariant
                i <= old_chain.len(),
                chain@.len() == i + 1,
                chain_view(chain@) == seq![m@] + chain_view(old_chain@).take(i as int),
            decreases old_chain.len() - i,
        {
            let s = old_chain[i].clone();
            let ghost prev = chain@;
            chain.push(s);
            proof {
                let lhs = chain_view(chain@);
                let rhs = seq![m@] + chain_view(old_chain@).take(i + 1);
                assert(lhs.len() == rhs.len());
                assert forall|k: int| 0 <= k < lhs.len() implies lhs[k] == rhs[k] by {
                    if k < i + 1 {
                        assert(chain@[k] == prev[k]);
                        assert(chain_view(prev)[k] == lhs[k]);
                    }
                }
                assert(lhs =~= rhs);
            }
            i = i + 1;
        }
        assert(chain_view(old_chain@).take(i as int) =~= chain_view(old_chain@));
        Error { chain }
    }

    /// The alternate rendering `{:#}`: every message, joined by `": "`.
    pub fn render(&self) -> (r: String)
        ensures
            r@ == joined(self@),
    {
        let mut out = String::new();
        let mut i: usize = 0;
        while i < self.chain.len()
            invariant
                i <= self.chain.len(),
                out@ == joined(self@.take(i as int)),
            decreases self.chain.len() - i,
        {
            let ghost before = out@;
            if i > 0 {
                out.append(": ");
            }
            out.append(self.chain[i].as_str());
            i = i + 1;
            proof {
                let t = self@.take(i as int);
                assert(t.drop_last() =~= self@.take(i - 1));
                assert(t.last() == self.chain@[i - 1]@);
                if i == 1 {
                    assert(out@ =~= t[0]);
                }
            }
        }
        assert(self@.take(self.chain.len() as int) =~= self@);
        out
    }
}

/// Rendering a chain with one more context in front writes that context,
/// `": "`, then the chain as before (for a chain that is not empty).
pub proof fn law_render_context(m: Seq<char>, c: Seq<Seq<char>>)
    requires
        c.len() > 0,
    ensures
        joined(seq![m] + c) == m + ": "@ + joined(c),
    decreases c.len(),
{
    let mc = seq![m] + c;
    if c.len() == 1 {
        assert(mc.drop_last() =~= seq![m]);
        assert(mc.last() == c[0]);
        assert(joined(c) == c[0]);
        assert(joined(mc.drop_last()) == m);
        assert(joined(mc) =~= m + ": "@ + joined(c));
    } else {
        assert(mc.drop_last() =~= seq![m] + c.drop_last());
        law_render_context(m, c.drop_last());
        assert(mc.last() == c.last());
        assert(joined(mc) =~= m + ": "@ + joined(c));
    }
}

} // verus!

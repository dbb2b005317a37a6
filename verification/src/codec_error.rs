//! Why bytes could not be decoded.
use vstd::prelude::*;
use vstd::string::StringExecFns;

verus! {

/// What is said of bytes that end too early.
pub open spec fn short_input() -> Seq<char> {
    "Not enough data to fill buffer"@
}

/// The lines of an error, each indented by one tab more than the one that it is the cause of.
///
/// Only the first line may stand alone; otherwise the last one is ended too.
pub open spec fn lines(chain: Seq<Seq<char>>, indent: nat) -> Seq<char>
    decreases chain.len(),
{
    if chain.len() == 0 {
        seq![]
    } else {
        let line = tabs(indent) + chain[0];
        if chain.len() > 1 {
            line + ":\n"@ + lines(chain.skip(1), indent + 1)
        } else if indent > 0 {
            line + "\n"@
        } else {
            line
        }
    }
}

/// Some tabs.
pub open spec fn tabs(n: nat) -> Seq<char>
    decreases n,
{
    if n == 0 {
        seq![]
    } else {
        tabs((n - 1) as nat) + "\t"@
    }
}

/// Why bytes do not begin with a value.
///
/// It says what could not be decoded, from the whole value down to the part where the bytes are
/// wrong.
#[derive(Debug, PartialEq, Eq)]
pub struct CodecError {
    chain: Vec<String>,
}

impl View for CodecError {
    type V = Seq<Seq<char>>;

    closed spec fn view(&self) -> Seq<Seq<char>> {
        self.chain.deep_view()
    }
}

impl CodecError {
    /// An error without a cause.
    pub fn new(description: String) -> (error: Self)
        ensures
            error@ == seq![description@],
    {
        let mut chain: Vec<String> = Vec::new();
        let ghost text = description@;
        chain.push(description);
        let error = CodecError { chain };
        proof {
            assert(error@ =~= seq![text]);
        }
        error
    }

    /// The error that this one is the cause of.
    pub fn chain(self, description: &str) -> (error: Self)
        ensures
            error@ == seq![description@] + self@,
    {
        let mut chain: Vec<String> = self.chain;
        let ghost causes = chain.deep_view();
        let ghost before = chain@;
        let text: String = String::from_str(description);
        chain.insert(0, text);
        let error = CodecError { chain };
        proof {
            assert forall|i: int| 0 <= i < error@.len() implies error@[i] == (seq![description@]
                + causes)[i] by {
                if i > 0 {
                    assert(error.chain@[i] == before[i - 1]);
                    assert(causes[i - 1] == before[i - 1]@);
                }
            }
            assert(error@ =~= seq![description@] + causes);
        }
        error
    }

    /// The error with all its causes.
    pub fn text(&self) -> (text: String)
        ensures
            text@ == lines(self@, 0),
    {
        let mut text: String = String::new();
        self.append_lines(&mut text, 0);
        proof {
            assert(self@.skip(0) =~= self@);
            assert(text@ =~= lines(self@, 0));
        }
        text
    }

    /// Appends the lines from one on.
    fn append_lines(&self, out: &mut String, indent: usize)
        requires
            indent <= self@.len(),
        ensures
            final(out)@ == old(out)@ + lines(self@.skip(indent as int), indent as nat),
        decreases self@.len() - indent,
    {
        let ghost start = out@;
        let ghost rest = self@.skip(indent as int);
        let n: usize = self.chain.len();
        if indent < n {
            for i in 0..indent
                invariant
                    out@ == start + tabs(i as nat),
            {
                out.append("\t");
                proof {
                    assert(out@ =~= start + tabs((i + 1) as nat));
                }
            }
            out.append(self.chain[indent].as_str());
            proof {
                assert(rest[0] == self.chain@[indent as int]@);
            }
            if n - indent > 1 {
                out.append(":\n");
                self.append_lines(out, indent + 1);
                proof {
                    assert(rest.skip(1) =~= self@.skip(indent + 1));
                }
            } else if indent > 0 {
                out.append("\n");
            }
        }
        proof {
            assert(out@ =~= start + lines(rest, indent as nat));
        }
    }
}

} // verus!

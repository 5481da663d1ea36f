//! Structured errors: a terminal error kind plus an ordered chain of
//! context frames, so that both a generic top-level message and the full
//! diagnostic chain can be reproduced.

use vstd::prelude::*;
use vstd::string::StringExecFns;

verus! {

/// What went wrong, as a closed set of kinds. The digest kinds carry the
/// diagnostic data their messages must include.
#[derive(Debug)]
pub enum ErrorKind {
    NotFound,
    PermissionDenied,
    NotABlockDevice,
    DeviceBusy,
    NoArtifactFound,
    AmbiguousArtifact,
    MissingSignature,
    UnsupportedAlgorithm,
    MalformedDigest,
    WrongDigestLength { bits: u64 },
    HashMismatch { computed: String, expected: String },
    DestinationExists,
    AssumptionViolated,
    OptionsLineMissing,
    MultipleOptionsLines,
    PlatformTokenNotFound,
    IOError,
}

/// An error kind together with the operations that were being attempted,
/// innermost first.
#[derive(Debug)]
pub struct InstallError {
    pub kind: ErrorKind,
    pub context: Vec<String>,
}

/// The decimal rendering of a number.
pub open spec fn dec_spec(n: nat) -> Seq<char>
    decreases n,
{
    if n < 10 {
        seq![digit_char(n)]
    } else {
        dec_spec(n / 10).push(digit_char(n % 10))
    }
}

/// The character for a single decimal digit.
pub open spec fn digit_char(d: nat) -> char {
    if d == 0 {
        '0'
    } else if d == 1 {
        '1'
    } else if d == 2 {
        '2'
    } else if d == 3 {
        '3'
    } else if d == 4 {
        '4'
    } else if d == 5 {
        '5'
    } else if d == 6 {
        '6'
    } else if d == 7 {
        '7'
    } else if d == 8 {
        '8'
    } else {
        '9'
    }
}

/// A one-character string slice for a decimal digit.
fn digit_str(d: u64) -> (r: &'static str)
    requires
        d < 10,
    ensures
        r@ == seq![digit_char(d as nat)],
{
    if d == 0 {
        proof {
            reveal_strlit("0");
        }
        assert("0"@ =~= seq!['0']);
        "0"
    } else if d == 1 {
        proof {
            reveal_strlit("1");
        }
        assert("1"@ =~= seq!['1']);
        "1"
    } else if d == 2 {
        proof {
            reveal_strlit("2");
        }
        assert("2"@ =~= seq!['2']);
        "2"
    } else if d == 3 {
        proof {
            reveal_strlit("3");
        }
        assert("3"@ =~= seq!['3']);
        "3"
    } else if d == 4 {
        proof {
            reveal_strlit("4");
        }
        assert("4"@ =~= seq!['4']);
        "4"
    } else if d == 5 {
        proof {
            reveal_strlit("5");
        }
        assert("5"@ =~= seq!['5']);
        "5"
    } else if d == 6 {
        proof {
            reveal_strlit("6");
        }
        assert("6"@ =~= seq!['6']);
        "6"
    } else if d == 7 {
        proof {
            reveal_strlit("7");
        }
        assert("7"@ =~= seq!['7']);
        "7"
    } else if d == 8 {
        proof {
            reveal_strlit("8");
        }
        assert("8"@ =~= seq!['8']);
        "8"
    } else {
        proof {
            reveal_strlit("9");
        }
        assert("9"@ =~= seq!['9']);
        "9"
    }
}

/// A number rendered in decimal.
pub fn u64_to_dec(n: u64) -> (r: String)
    ensures
        r@ == dec_spec(n as nat),
    decreases n,
{
    if n < 10 {
        let mut r = String::new();
        r.append(digit_str(n));
        proof {
            assert(Seq::<char>::empty() + seq![digit_char(n as nat)] =~= seq![
                digit_char(n as nat),
            ]);
        }
        r
    } else {
        let mut r = u64_to_dec(n / 10);
        r.append(digit_str(n % 10));
        proof {
            assert(dec_spec((n / 10) as nat) + seq![digit_char((n % 10) as nat)] =~= dec_spec(
                (n / 10) as nat,
            ).push(digit_char((n % 10) as nat)));
        }
        r
    }
}

/// The message a kind renders to. The digest-length message carries the
/// observed bit length; the mismatch message carries both digests.
pub open spec fn message_spec(k: ErrorKind) -> Seq<char> {
    match k {
        ErrorKind::NotFound => "not found"@,
        ErrorKind::PermissionDenied => "permission denied"@,
        ErrorKind::NotABlockDevice => "not a block device"@,
        ErrorKind::DeviceBusy => "device is busy"@,
        ErrorKind::NoArtifactFound => "no artifacts found"@,
        ErrorKind::AmbiguousArtifact => "found multiple artifacts"@,
        ErrorKind::MissingSignature => "signature not found and insecure mode not requested"@,
        ErrorKind::UnsupportedAlgorithm => "unknown hash type"@,
        ErrorKind::MalformedDigest => "malformed hex digest"@,
        ErrorKind::WrongDigestLength { bits } => "wrong digest length ("@ + dec_spec(bits as nat)
            + ")"@,
        ErrorKind::HashMismatch { computed, expected } => "hash mismatch, computed '"@ + computed@
            + "' but expected '"@ + expected@ + "'"@,
        ErrorKind::DestinationExists => "destination already exists"@,
        ErrorKind::AssumptionViolated => "assumption violated by target filesystem"@,
        ErrorKind::OptionsLineMissing => "Couldn't locate 'options' line"@,
        ErrorKind::MultipleOptionsLines => "Multiple 'options' lines found"@,
        ErrorKind::PlatformTokenNotFound => "Couldn't locate platform ID"@,
        ErrorKind::IOError => "I/O error"@,
    }
}

/// The full chain: context frames outermost first, then the kind's
/// message, joined by `": "`.
pub open spec fn chain_spec(ctx: Seq<Seq<char>>, m: Seq<char>) -> Seq<char>
    decreases ctx.len(),
{
    if ctx.len() == 0 {
        m
    } else {
        ctx.last() + ": "@ + chain_spec(ctx.drop_last(), m)
    }
}

impl InstallError {
    /// An error with no context yet.
    pub fn new(kind: ErrorKind) -> (r: InstallError)
        ensures
            r.kind == kind,
            r.context@ =~= Seq::<String>::empty(),
    {
        InstallError { kind, context: Vec::new() }
    }

    /// The same error seen one operation further out.
    pub fn with_context(self, ctx: String) -> (r: InstallError)
        ensures
            r.kind == self.kind,
            r.context@ == self.context@.push(ctx),
    {
        let mut e = self;
        e.context.push(ctx);
        e
    }

    /// The message of the terminal kind alone.
    pub fn message(&self) -> (r: String)
        ensures
            r@ == message_spec(self.kind),
    {
        match &self.kind {
            ErrorKind::NotFound => {
                let mut r = String::new();
                r.append("not found");
                proof {
                    assert(Seq::<char>::empty() + "not found"@ =~= "not found"@);
                }
                r
            },
            ErrorKind::PermissionDenied => {
                let mut r = String::new();
                r.append("permission denied");
                proof {
                    assert(Seq::<char>::empty() + "permission denied"@ =~= "permission denied"@);
                }
                r
            },
            ErrorKind::NotABlockDevice => {
                let mut r = String::new();
                r.append("not a block device");
                proof {
                    assert(Seq::<char>::empty() + "not a block device"@ =~= "not a block device"@);
                }
                r
            },
            ErrorKind::DeviceBusy => {
                let mut r = String::new();
                r.append("device is busy");
                proof {
                    assert(Seq::<char>::empty() + "device is busy"@ =~= "device is busy"@);
                }
                r
            },
            ErrorKind::NoArtifactFound => {
                let mut r = String::new();
                r.append("no artifacts found");
                proof {
                    assert(Seq::<char>::empty() + "no artifacts found"@ =~= "no artifacts found"@);
                }
                r
            },
            ErrorKind::AmbiguousArtifact => {
                let mut r = String::new();
                r.append("found multiple artifacts");
                proof {
                    assert(Seq::<char>::empty() + "found multiple artifacts"@
                        =~= "found multiple artifacts"@);
                }
                r
            },
            ErrorKind::MissingSignature => {
                let mut r = String::new();
                r.append("signature not found and insecure mode not requested");
                proof {
                    assert(Seq::<char>::empty()
                        + "signature not found and insecure mode not requested"@
                        =~= "signature not found and insecure mode not requested"@);
                }
                r
            },
            ErrorKind::UnsupportedAlgorithm => {
                let mut r = String::new();
                r.append("unknown hash type");
                proof {
                    assert(Seq::<char>::empty() + "unknown hash type"@ =~= "unknown hash type"@);
                }
                r
            },
            ErrorKind::MalformedDigest => {
                let mut r = String::new();
                r.append("malformed hex digest");
                proof {
                    assert(Seq::<char>::empty() + "malformed hex digest"@
                        =~= "malformed hex digest"@);
                }
                r
            },
            ErrorKind::WrongDigestLength { bits } => {
                let mut r = String::new();
                r.append("wrong digest length (");
                let d = u64_to_dec(*bits);
                r.append(d.as_str());
                r.append(")");
                proof {
                    assert(Seq::<char>::empty() + "wrong digest length ("@ + dec_spec(
                        *bits as nat,
                    ) + ")"@ =~= "wrong digest length ("@ + dec_spec(*bits as nat) + ")"@);
                }
                r
            },
            ErrorKind::HashMismatch { computed, expected } => {
                let mut r = String::new();
                r.append("hash mismatch, computed '");
                r.append(computed.as_str());
                r.append("' but expected '");
                r.append(expected.as_str());
                r.append("'");
                proof {
                    assert(Seq::<char>::empty() + "hash mismatch, computed '"@ + computed@
                        + "' but expected '"@ + expected@ + "'"@ =~= "hash mismatch, computed '"@
                        + computed@ + "' but expected '"@ + expected@ + "'"@);
                }
                r
            },
            ErrorKind::DestinationExists => {
                let mut r = String::new();
                r.append("destination already exists");
                proof {
                    assert(Seq::<char>::empty() + "destination already exists"@
                        =~= "destination already exists"@);
                }
                r
            },
            ErrorKind::AssumptionViolated => {
                let mut r = String::new();
                r.append("assumption violated by target filesystem");
                proof {
                    assert(Seq::<char>::empty() + "assumption violated by target filesystem"@
                        =~= "assumption violated by target filesystem"@);
                }
                r
            },
            ErrorKind::OptionsLineMissing => {
                let mut r = String::new();
                r.append("Couldn't locate 'options' line");
                proof {
                    assert(Seq::<char>::empty() + "Couldn't locate 'options' line"@
                        =~= "Couldn't locate 'options' line"@);
                }
                r
            },
            ErrorKind::MultipleOptionsLines => {
                let mut r = String::new();
                r.append("Multiple 'options' lines found");
                proof {
                    assert(Seq::<char>::empty() + "Multiple 'options' lines found"@
                        =~= "Multiple 'options' lines found"@);
                }
                r
            },
            ErrorKind::PlatformTokenNotFound => {
                let mut r = String::new();
                r.append("Couldn't locate platform ID");
                proof {
                    assert(Seq::<char>::empty() + "Couldn't locate platform ID"@
                        =~= "Couldn't locate platform ID"@);
                }
                r
            },
            ErrorKind::IOError => {
                let mut r = String::new();
                r.append("I/O error");
                proof {
                    assert(Seq::<char>::empty() + "I/O error"@ =~= "I/O error"@);
                }
                r
            },
        }
    }

    /// The full diagnostic chain, outermost context first, ending with
    /// the kind's message.
    pub fn render_chain(&self) -> (r: String)
        ensures
            r@ == chain_spec(self.context.deep_view(), message_spec(self.kind)),
    {
        let ghost ctx = self.context.deep_view();
        let m = self.message();
        let mut out = String::new();
        let mut i: usize = self.context.len();
        proof {
            assert(ctx.len() == self.context@.len());
            assert(ctx.take(i as int) =~= ctx);
            assert(chain_spec(ctx, m@) =~= Seq::<char>::empty() + chain_spec(
                ctx.take(i as int),
                m@,
            ));
        }
        while i > 0
            invariant
                ctx == self.context.deep_view(),
                ctx.len() == self.context@.len(),
                i <= ctx.len(),
                m@ == message_spec(self.kind),
                chain_spec(ctx, m@) == out@ + chain_spec(ctx.take(i as int), m@),
            decreases i,
        {
            let frame = &self.context[i - 1];
            out.append(frame.as_str());
            out.append(": ");
            proof {
                let pre = ctx.take(i as int);
                assert(pre.last() == ctx[i - 1]);
                assert(ctx[i - 1] == self.context@[i - 1]@);
                assert(pre.drop_last() =~= ctx.take(i - 1));
            }
            i = i - 1;
        }
        out.append(m.as_str());
        proof {
            assert(ctx.take(0) =~= Seq::<Seq<char>>::empty());
        }
        out
    }
}

} // verus!

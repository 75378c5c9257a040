//! What a command declares about its arguments: its name, the positional
//! arguments it requires and the named flags it accepts.

use vstd::prelude::*;

verus! {

/// The shape of value an argument takes.
#[derive(Clone, Copy, Debug, PartialEq, Eq, Structural)]
pub enum SyntaxShape {
    String,
}

/// A required positional argument.
#[derive(Debug, PartialEq)]
pub struct PositionalArg {
    pub name: String,
    pub shape: SyntaxShape,
    pub desc: String,
}

/// A named flag, with an optional one-letter short form.
#[derive(Debug, PartialEq)]
pub struct NamedArg {
    pub name: String,
    pub shape: SyntaxShape,
    pub desc: String,
    pub short: Option<char>,
}

/// The arguments a command declares.
#[derive(Debug, PartialEq)]
pub struct CommandSignature {
    pub name: String,
    pub required: Vec<PositionalArg>,
    pub named: Vec<NamedArg>,
}

/// The view of a command's signature: its name, then each positional
/// argument as (name, shape, description), then each flag as
/// (name, shape, description, short form), in declaration order.
pub struct SignatureView {
    pub name: Seq<char>,
    pub required: Seq<(Seq<char>, SyntaxShape, Seq<char>)>,
    pub named: Seq<(Seq<char>, SyntaxShape, Seq<char>, Option<char>)>,
}

impl View for CommandSignature {
    type V = SignatureView;

    open spec fn view(&self) -> SignatureView {
        SignatureView {
            name: self.name@,
            required: self.required@.map_values(|a: PositionalArg| (a.name@, a.shape, a.desc@)),
            named: self.named@.map_values(|a: NamedArg| (a.name@, a.shape, a.desc@, a.short)),
        }
    }
}

impl CommandSignature {
    /// A signature for `name` with no arguments yet.
    pub fn build(name: &str) -> (r: CommandSignature)
        ensures
            r@ == (SignatureView { name: name@, required: Seq::empty(), named: Seq::empty() }),
    {
        let r = CommandSignature { name: String::from_str(name), required: Vec::new(), named: Vec::new() };
        assert(r@.required =~= Seq::empty());
        assert(r@.named =~= Seq::empty());
        r
    }

    /// This signature with one more required positional argument.
    pub fn required(self, name: &str, shape: SyntaxShape, desc: &str) -> (r: CommandSignature)
        ensures
            r@ == (SignatureView { required: self@.required.push((name@, shape, desc@)), ..self@ }),
    {
        let mut s = self;
        s.required.push(PositionalArg { name: String::from_str(name), shape, desc: String::from_str(desc) });
        assert(s@.required =~= self@.required.push((name@, shape, desc@)));
        s
    }

    /// This signature with one more named flag.
    pub fn named(self, name: &str, shape: SyntaxShape, desc: &str, short: Option<char>) -> (r: CommandSignature)
        ensures
            r@ == (SignatureView { named: self@.named.push((name@, shape, desc@, short)), ..self@ }),
    {
        let mut s = self;
        s.named.push(NamedArg { name: String::from_str(name), shape, desc: String::from_str(desc), short });
        assert(s@.named =~= self@.named.push((name@, shape, desc@, short)));
        s
    }
}

} // verus!

//! Command schemas: a command name and an ordered list of typed positional parameters, and a
//! parser that reads the parameters of one command line against such a schema.
use vstd::prelude::*;
use crate::text::{head, tail, split_token, parse_u8, u8_of};

verus! {

/// The type of a positional parameter. `Opt` is no parameter: it marks that all parameters after
/// it are optional.
#[derive(Debug, Clone, Copy, PartialEq, Eq, Structural)]
pub enum Type {
    Str,
    U8,
    Opt,
}

/// How a type is written in messages.
pub open spec fn type_label(t: Type) -> Seq<char> {
    match t {
        Type::Str => "&str"@,
        Type::U8 => "u8"@,
        Type::Opt => ""@,
    }
}

impl Type {
    /// How this type is written in messages.
    pub fn name(&self) -> (r: &'static str)
        ensures
            r@ == type_label(*self),
    {
        match self {
            Type::Str => "&str",
            Type::U8 => "u8",
            Type::Opt => "",
        }
    }
}

/// A value that a parameter of a schema can be read as.
pub trait FromType<'a>: Sized {
    /// The declared type this value is read from, and whether the parameter is required.
    spec fn spec_kind() -> (Type, bool);

    /// Whether the token `param` reads as `v`.
    spec fn reads_as(param: Seq<char>, v: Self) -> bool;

    /// Whether the token `param` can be read at all.
    spec fn readable(param: Seq<char>) -> bool;

    /// Whether `v` is the value of an optional parameter that was left out.
    spec fn is_default(v: Self) -> bool;

    fn kind() -> (r: (Type, bool))
        ensures
            r == Self::spec_kind(),
    ;

    fn from_type(param: &'a str) -> (r: Result<Self, String>)
        ensures
            r is Ok <==> Self::readable(param@),
            r matches Ok(v) ==> Self::reads_as(param@, v),
    ;

    fn default_value() -> (r: Self)
        ensures
            Self::is_default(r),
    ;
}

impl<'a> FromType<'a> for &'a str {
    open spec fn spec_kind() -> (Type, bool) {
        (Type::Str, true)
    }

    open spec fn reads_as(param: Seq<char>, v: Self) -> bool {
        v@ == param
    }

    open spec fn readable(param: Seq<char>) -> bool {
        true
    }

    open spec fn is_default(v: Self) -> bool {
        v@.len() == 0
    }

    fn kind() -> (r: (Type, bool)) {
        (Type::Str, true)
    }

    fn from_type(param: &'a str) -> (r: Result<Self, String>) {
        Ok(param)
    }

    fn default_value() -> (r: Self) {
        proof {
            reveal_strlit("");
        }
        ""
    }
}

impl<'a> FromType<'a> for Option<&'a str> {
    open spec fn spec_kind() -> (Type, bool) {
        (Type::Str, false)
    }

    open spec fn reads_as(param: Seq<char>, v: Self) -> bool {
        v matches Some(s) && s@ == param
    }

    open spec fn readable(param: Seq<char>) -> bool {
        true
    }

    open spec fn is_default(v: Self) -> bool {
        v is None
    }

    fn kind() -> (r: (Type, bool)) {
        (Type::Str, false)
    }

    fn from_type(param: &'a str) -> (r: Result<Self, String>) {
        Ok(Some(param))
    }

    fn default_value() -> (r: Self) {
        None
    }
}

impl<'a> FromType<'a> for u8 {
    open spec fn spec_kind() -> (Type, bool) {
        (Type::U8, true)
    }

    open spec fn reads_as(param: Seq<char>, v: Self) -> bool {
        u8_of(param) == Some(v)
    }

    open spec fn readable(param: Seq<char>) -> bool {
        u8_of(param) is Some
    }

    open spec fn is_default(v: Self) -> bool {
        v == 0
    }

    fn kind() -> (r: (Type, bool)) {
        (Type::U8, true)
    }

    fn from_type(param: &'a str) -> (r: Result<Self, String>) {
        parse_u8(param)
    }

    fn default_value() -> (r: Self) {
        0
    }
}

impl<'a> FromType<'a> for Option<u8> {
    open spec fn spec_kind() -> (Type, bool) {
        (Type::U8, false)
    }

    open spec fn reads_as(param: Seq<char>, v: Self) -> bool {
        v matches Some(b) && u8_of(param) == Some(b)
    }

    open spec fn readable(param: Seq<char>) -> bool {
        u8_of(param) is Some
    }

    open spec fn is_default(v: Self) -> bool {
        v is None
    }

    fn kind() -> (r: (Type, bool)) {
        (Type::U8, false)
    }

    fn from_type(param: &'a str) -> (r: Result<Self, String>) {
        match parse_u8(param) {
            Ok(b) => Ok(Some(b)),
            Err(e) => Err(e),
        }
    }

    fn default_value() -> (r: Self) {
        None
    }
}

/// The schema of one command: its name and its positional parameters, each with a name and a
/// type. At most one `Opt` marker may stand among the parameters; those after it are optional.
#[derive(Debug, Clone, Copy)]
pub struct Signature {
    pub cmd: &'static str,
    pub params: &'static [(&'static str, Type)],
}

/// Whether an optional marker stands among `params` at an index in `[i, j)`.
pub open spec fn marker_between(params: Seq<(&'static str, Type)>, i: int, j: int) -> bool {
    exists|k: int| i <= k < j && (#[trigger] params[k]).1 == Type::Opt
}

/// The text of one parameter in a usage line: `<name: type>` when required, `[name: type]`
/// when optional, each after a space.
pub open spec fn field_text(name: Seq<char>, t: Type, required: bool) -> Seq<char> {
    if required {
        " <"@ + name + ": "@ + type_label(t) + ">"@
    } else {
        " ["@ + name + ": "@ + type_label(t) + "]"@
    }
}

/// The usage text of the parameters from index `i` on, where `required` says whether no marker
/// came before; nothing when a second marker follows.
pub open spec fn fields_text(params: Seq<(&'static str, Type)>, i: int, required: bool) -> Option<
    Seq<char>,
>
    decreases params.len() - i,
{
    if i < 0 || i >= params.len() {
        Some(Seq::empty())
    } else if params[i].1 == Type::Opt {
        if required {
            fields_text(params, i + 1, false)
        } else {
            None
        }
    } else {
        match fields_text(params, i + 1, required) {
            Some(t) => Some(field_text(params[i].0@, params[i].1, required) + t),
            None => None,
        }
    }
}

/// The usage line of a schema: its command name, then each parameter.
pub open spec fn usage_text(sig: Signature) -> Option<Seq<char>> {
    match fields_text(sig.params@, 0, true) {
        Some(t) => Some(sig.cmd@ + t),
        None => None,
    }
}

impl Signature {
    /// The parameter at `index`, if the schema has that many.
    pub fn get(&self, index: usize) -> (r: Option<(&'static str, Type)>)
        ensures
            index < self.params@.len() ==> r == Some(self.params@[index as int]),
            index >= self.params@.len() ==> r is None,
    {
        if index < self.params.len() {
            Some(self.params[index])
        } else {
            None
        }
    }

    /// Splits a command line into its command name and the rest, at the first white space
    /// character; nothing for an empty line.
    pub fn parse_cmd(input: &str) -> (r: Option<(&str, &str)>)
        ensures
            r is None <==> input@.len() == 0,
            r matches Some((c, rest)) ==> c@ == head(input@) && rest@ == tail(input@),
    {
        if input.is_empty() {
            return None;
        }
        Some(split_token(input))
    }

    /// A parser of `input` against this schema.
    pub fn parser<'a>(self, input: &'a str) -> (r: SignatureParser<'a>)
        ensures
            r.schema() == self,
            r.position() == 0,
            r.position() <= r.schema().params@.len(),
            r.required(),
            r.rest() == input@,
    {
        SignatureParser::new(self, input)
    }

    /// The usage line of this schema, such as `bind <name: &str> <register: u8>`; nothing when
    /// a second optional marker breaks the schema.
    pub fn usage(&self) -> (r: Option<String>)
        ensures
            r matches Some(s) ==> usage_text(*self) == Some(s@),
            r is None ==> usage_text(*self) is None,
    {
        let mut out = String::from_str(self.cmd);
        let mut required = true;
        let mut i: usize = 0;
        while i < self.params.len()
            invariant
                0 <= i <= self.params@.len(),
                usage_text(*self) == match fields_text(self.params@, i as int, required) {
                    Some(t) => Some(out@ + t),
                    None => None::<Seq<char>>,
                },
            decreases self.params@.len() - i,
        {
            let (name, ty) = self.params[i];
            if ty == Type::Opt {
                if !required {
                    return None;
                }
                required = false;
            } else {
                let ghost before = out@;
                if required {
                    out.append(" <");
                    out.append(name);
                    out.append(": ");
                    out.append(ty.name());
                    out.append(">");
                } else {
                    out.append(" [");
                    out.append(name);
                    out.append(": ");
                    out.append(ty.name());
                    out.append("]");
                }
                proof {
                    let f = field_text(name@, ty, required);
                    assert(out@ =~= before + f);
                    match fields_text(self.params@, i + 1, required) {
                        Some(t) => {
                            assert(before + (f + t) =~= out@ + t);
                        },
                        None => {},
                    }
                }
            }
            i = i + 1;
        }
        Some(out)
    }
}

/// The first index at or after `i` whose parameter is not an optional marker.
pub open spec fn next_field(params: Seq<(&'static str, Type)>, i: int) -> int
    decreases params.len() - i,
{
    if 0 <= i < params.len() && params[i].1 == Type::Opt {
        next_field(params, i + 1)
    } else {
        i
    }
}

proof fn lemma_next_field_skips(params: Seq<(&'static str, Type)>, i: int)
    requires
        0 <= i,
    ensures
        i <= next_field(params, i),
        next_field(params, i) >= params.len() || params[next_field(params, i)].1 != Type::Opt,
        i <= params.len() ==> next_field(params, i) <= params.len(),
    decreases params.len() - i,
{
    if 0 <= i < params.len() && params[i].1 == Type::Opt {
        lemma_next_field_skips(params, i + 1);
    }
}

/// Reads the parameters of one command line, one at a time, against a schema.
pub struct SignatureParser<'a> {
    signature: Signature,
    is_required: bool,
    index: usize,
    input: &'a str,
}

impl<'a> SignatureParser<'a> {
    /// The schema that the input is read against.
    pub closed spec fn schema(&self) -> Signature {
        self.signature
    }

    /// The index of the next parameter of the schema.
    pub closed spec fn position(&self) -> nat {
        self.index as nat
    }

    /// Whether no optional marker has been passed yet.
    pub closed spec fn required(&self) -> bool {
        self.is_required
    }

    /// The input that is not read yet.
    pub closed spec fn rest(&self) -> Seq<char> {
        self.input@
    }

    pub fn new(signature: Signature, input: &'a str) -> (r: Self)
        ensures
            r.schema() == signature,
            r.position() == 0,
            r.position() <= r.schema().params@.len(),
            r.required(),
            r.rest() == input@,
    {
        Self { signature, is_required: true, index: 0, input }
    }

    /// Takes the next whitespace-delimited token off the input, with the white space character
    /// after it; nothing once the input is empty.
    fn split_param(&mut self) -> (r: Option<&'a str>)
        ensures
            final(self).signature == old(self).signature,
            final(self).index == old(self).index,
            final(self).is_required == old(self).is_required,
            old(self).input@.len() == 0 ==> r is None && final(self).input@ == old(self).input@,
            old(self).input@.len() > 0 ==> (r matches Some(p) && p@ == head(old(self).input@)
                && final(self).input@ == tail(old(self).input@)),
    {
        if self.input.is_empty() {
            return None;
        }
        let (param, input) = split_token(self.input);
        self.input = input;
        Some(param)
    }

    /// An error at the current parameter.
    fn err(&self, accessed: Option<(Type, bool)>, err: Option<String>) -> (r: SignatureError)
        ensures
            r.expected == self.signature,
            r.index == self.index,
            r.is_required == self.is_required,
            r.accessed == accessed,
            r.err == err,
    {
        SignatureError { expected: self.signature, index: self.index, is_required: self.is_required, accessed, err }
    }

    /// Reads the next parameter as a `T`. Optional markers on the way are passed, and make the
    /// parameters after them optional. The parameter's declared type and requiredness must be
    /// those of `T`. The parameter's text is the next whitespace-delimited token of the input. A
    /// missing optional parameter reads as `T`'s default value.
    pub fn parse_param<T: FromType<'a>>(&mut self) -> (r: Result<T, SignatureError>)
        requires
            old(self).position() <= old(self).schema().params@.len(),
        ensures
            final(self).schema() == old(self).schema(),
            final(self).position() <= final(self).schema().params@.len(),
            ({
                let sig = old(self).schema();
                let params = sig.params@;
                let j = next_field(params, old(self).position() as int);
                let req = old(self).required() && !marker_between(params, old(self).position() as int, j);
                let kind = T::spec_kind();
                let rest = old(self).rest();
                if j >= params.len() || params[j].1 != kind.0 || req != kind.1 {
                    &&& r matches Err(e) && e.is_at(sig, j, req, Some(kind), false)
                    &&& final(self).position() == j
                    &&& final(self).required() == req
                    &&& final(self).rest() == rest
                } else if rest.len() == 0 {
                    &&& final(self).required() == req
                    &&& final(self).rest() == rest
                    &&& req ==> (r matches Err(e) && e.is_at(sig, j, req, Some(kind), false)
                        && final(self).position() == j)
                    &&& !req ==> (r matches Ok(v) && T::is_default(v) && final(self).position() == j + 1)
                } else {
                    &&& final(self).position() == j + 1
                    &&& final(self).required() == req
                    &&& final(self).rest() == tail(rest)
                    &&& r is Ok <==> T::readable(head(rest))
                    &&& r matches Ok(v) ==> T::reads_as(head(rest), v)
                    &&& r matches Err(e) ==> e.is_at(sig, j, req, Some(kind), true)
                }
            }),
    {
        let kind = T::kind();
        let ghost start = self.index as int;
        let ghost params = self.signature.params@;
        proof {
            lemma_next_field_skips(params, start);
        }
        while self.index < self.signature.params.len() && self.signature.params[self.index].1 == Type::Opt
            invariant
                self.signature == old(self).signature,
                self.input == old(self).input,
                params == self.signature.params@,
                start <= self.index <= next_field(params, start),
                next_field(params, self.index as int) == next_field(params, start),
                self.is_required == (old(self).is_required && !marker_between(params, start, self.index as int)),
            decreases params.len() - self.index,
        {
            proof {
                lemma_next_field_skips(params, self.index as int);
            }
            self.is_required = false;
            self.index = self.index + 1;
            proof {
                assert(params[self.index - 1].1 == Type::Opt);
                assert(marker_between(params, start, self.index as int));
            }
        }
        proof {
            lemma_next_field_skips(params, self.index as int);
            assert(self.index == next_field(params, start));
        }
        if self.index >= self.signature.params.len() {
            return Err(self.err(Some(kind), None));
        }
        let ty = self.signature.params[self.index].1;
        if ty != kind.0 || self.is_required != kind.1 {
            return Err(self.err(Some(kind), None));
        }
        match self.split_param() {
            Some(param) => {
                let out = match T::from_type(param) {
                    Ok(v) => Ok(v),
                    Err(e) => Err(self.err(Some(kind), Some(e))),
                };
                self.index = self.index + 1;
                out
            },
            None => {
                if self.is_required {
                    Err(self.err(Some(kind), None))
                } else {
                    self.index = self.index + 1;
                    Ok(T::default_value())
                }
            },
        }
    }

    /// Succeeds when every parameter of the schema was read and no input is left.
    pub fn finish(&self) -> (r: Result<(), SignatureError>)
        ensures
            r is Ok <==> self.position() >= self.schema().params@.len() && self.rest().len() == 0,
            r matches Err(e) ==> e.is_at(self.schema(), self.position() as int, self.required(), None, false),
    {
        if self.signature.get(self.index).is_some() || !self.input.is_empty() {
            return Err(self.err(None, None));
        }
        Ok(())
    }
}

/// Why a command line does not fit its schema.
#[derive(Debug)]
pub struct SignatureError {
    /// The schema that was expected.
    pub expected: Signature,
    /// The index of the parameter being read.
    pub index: usize,
    /// Whether the parameter being read is required.
    pub is_required: bool,
    /// The type and requiredness that the caller tried to read; nothing when the input was
    /// expected to be done.
    pub accessed: Option<(Type, bool)>,
    /// Why the token could not be read, when that was the trouble.
    pub err: Option<String>,
}

impl SignatureError {
    /// Whether this error was raised at parameter `index` of `sig`, with the given requiredness,
    /// access and whether a token failed to read.
    pub open spec fn is_at(
        &self,
        sig: Signature,
        index: int,
        required: bool,
        accessed: Option<(Type, bool)>,
        failed: bool,
    ) -> bool {
        &&& self.expected == sig
        &&& self.index == index
        &&& self.is_required == required
        &&& self.accessed == accessed
        &&& (self.err is Some) == failed
    }

    /// The text that describes this error: the expected usage line, then what went wrong.
    pub open spec fn text(&self) -> Seq<char> {
        self.heading() + self.detail()
    }

    /// The first line of the message: the expected usage line and a colon.
    pub open spec fn heading(&self) -> Seq<char> {
        let usage = match usage_text(self.expected) {
            Some(u) => u,
            None => self.expected.cmd@,
        };
        usage + ":\n"@
    }

    /// What went wrong, in one line.
    pub open spec fn detail(&self) -> Seq<char> {
        let params = self.expected.params@;
        let detail = if self.index >= params.len() {
            match self.accessed {
                Some((ty, req)) => "tried to access "@ + required_word(req) + " field of type `"@
                    + type_label(ty) + "`, expected to be done with parsing input\n"@,
                None => "expected to be done with parsing, but still has remaining input\n"@,
            }
        } else {
            let name = params[self.index as int].0@;
            let ty = params[self.index as int].1;
            match self.accessed {
                Some(acc) => name + ": "@ + if ty != acc.0 || self.is_required != acc.1 {
                    "failed to access type `"@ + type_label(acc.0) + "`, expected `"@ + type_label(ty)
                        + "`\n"@
                } else {
                    match self.err {
                        Some(m) => "failed parsing type `"@ + type_label(acc.0) + "` with \""@ + m@
                            + "\"\n"@,
                        None => "missing input for required argument of type `"@ + type_label(ty)
                            + "`\n"@,
                    }
                },
                None => "tries to stop parsing, but signature is expecting "@ + required_word(
                    self.is_required,
                ) + " field `"@ + name + "` of type `"@ + type_label(ty) + "`\n"@,
            }
        };
        detail
    }

    /// The text that describes this error, as [`SignatureError::text`] gives it.
    pub fn message(&self) -> (r: String)
        ensures
            r@ == self.text(),
    {
        let mut out = match self.expected.usage() {
            Some(u) => u,
            None => String::from_str(self.expected.cmd),
        };
        out.append(":\n");
        let detail = self.detail_message();
        out.append(detail.as_str());
        out
    }

    fn detail_message(&self) -> (r: String)
        ensures
            r@ == self.detail(),
    {
        let mut out = String::new();
        match self.expected.get(self.index) {
            None => match self.accessed {
                Some((ty, req)) => {
                    out.append("tried to access ");
                    out.append(required_str(req));
                    out.append(" field of type `");
                    out.append(ty.name());
                    out.append("`, expected to be done with parsing input\n");
                },
                None => {
                    out.append("expected to be done with parsing, but still has remaining input\n");
                },
            },
            Some((name, ty)) => match self.accessed {
                Some(acc) => {
                    out.append(name);
                    out.append(": ");
                    if ty != acc.0 || self.is_required != acc.1 {
                        out.append("failed to access type `");
                        out.append(acc.0.name());
                        out.append("`, expected `");
                        out.append(ty.name());
                        out.append("`\n");
                    } else {
                        match &self.err {
                            Some(m) => {
                                out.append("failed parsing type `");
                                out.append(acc.0.name());
                                out.append("` with \"");
                                out.append(m.as_str());
                                out.append("\"\n");
                            },
                            None => {
                                out.append("missing input for required argument of type `");
                                out.append(ty.name());
                                out.append("`\n");
                            },
                        }
                    }
                },
                None => {
                    out.append("tries to stop parsing, but signature is expecting ");
                    out.append(required_str(self.is_required));
                    out.append(" field `");
                    out.append(name);
                    out.append("` of type `");
                    out.append(ty.name());
                    out.append("`\n");
                },
            },
        }
        assert(out@ =~= self.detail());
        out
    }
}

/// How the requiredness of a parameter is written in messages.
pub open spec fn required_word(required: bool) -> Seq<char> {
    if required {
        "required"@
    } else {
        "optional"@
    }
}

fn required_str(required: bool) -> (r: &'static str)
    ensures
        r@ == required_word(required),
{
    if required {
        "required"
    } else {
        "optional"
    }
}

} // verus!

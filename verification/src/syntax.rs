//! The C# calls that declare resources and OpenAPI documents, as texts.
//!
//! A call can be read off a text in one way only: two calls that stand at the same place say the
//! same.

use crate::resources;
use vstd::prelude::*;
use vstd::utf8;

verus! {

/// `c` is white space: it has the Unicode property `White_Space`, which `\s` stands for.
pub open spec fn is_white_space(c: char) -> bool {
    ||| '\t' <= c <= '\r'
    ||| c == ' '
    ||| c == '\u{85}'
    ||| c == '\u{a0}'
    ||| c == '\u{1680}'
    ||| '\u{2000}' <= c <= '\u{200a}'
    ||| c == '\u{2028}'
    ||| c == '\u{2029}'
    ||| c == '\u{202f}'
    ||| c == '\u{205f}'
    ||| c == '\u{3000}'
}

/// An ASCII letter.
pub open spec fn is_letter(c: char) -> bool {
    'A' <= c <= 'Z' || 'a' <= c <= 'z'
}

/// An ASCII letter or digit.
pub open spec fn is_letter_or_digit(c: char) -> bool {
    is_letter(c) || '0' <= c <= '9'
}

/// The suffix of an `Add*` call: ASCII letters and digits, a letter first.
pub open spec fn is_add_suffix(s: Seq<char>) -> bool {
    &&& s.len() > 0
    &&& is_letter(s[0])
    &&& forall|k: int| 0 <= k < s.len() ==> is_letter_or_digit(#[trigger] s[k])
}

/// The last part of a type argument: ASCII letters, digits and underscores.
pub open spec fn is_project_type(s: Seq<char>) -> bool {
    &&& s.len() > 0
    &&& forall|k: int|
        0 <= k < s.len() ==> (#[trigger] s[k]) == '_' || is_letter_or_digit(s[k])
}

/// A resource name: at least one character, and no quotation mark.
pub open spec fn is_resource_name(s: Seq<char>) -> bool {
    &&& s.len() > 0
    &&& !s.contains('"')
}

/// White space throughout, or nothing at all.
pub open spec fn is_gap(s: Seq<char>) -> bool {
    forall|k: int| 0 <= k < s.len() ==> is_white_space(#[trigger] s[k])
}

/// The qualification of a type: nothing, or ASCII letters, digits, underscores and dots with a dot
/// at the end.
pub open spec fn is_qualification(s: Seq<char>) -> bool {
    ||| s.len() == 0
    ||| {
        &&& s.len() >= 2
        &&& s.last() == '.'
        &&& forall|k: int|
            0 <= k < s.len() ==> (#[trigger] s[k]) == '.' || s[k] == '_' || is_letter_or_digit(
                s[k],
            )
    }
}

/// A type argument `<Namespace.Name>`.
pub struct TypeArgument {
    pub before: Seq<char>,
    pub qualification: Seq<char>,
    pub name: Seq<char>,
    pub after: Seq<char>,
}

impl TypeArgument {
    pub open spec fn is_valid(self) -> bool {
        is_gap(self.before) && is_qualification(self.qualification) && is_project_type(self.name)
            && is_gap(self.after)
    }

    pub open spec fn text(self) -> Seq<char> {
        "<"@ + (self.before + ((self.qualification + self.name) + (self.after + ">"@)))
    }
}

/// A call `builder.Add*<Type>("name"` up to the end of its first argument.
pub struct AddCall {
    pub before_dot: Seq<char>,
    pub after_dot: Seq<char>,
    pub suffix: Seq<char>,
    pub after_suffix: Seq<char>,
    pub argument: Option<TypeArgument>,
    pub before_parenthesis: Seq<char>,
    pub after_parenthesis: Seq<char>,
    pub name: Seq<char>,
}

impl AddCall {
    pub open spec fn is_valid(self) -> bool {
        &&& is_gap(self.before_dot) && is_gap(self.after_dot)
        &&& is_add_suffix(self.suffix)
        &&& is_gap(self.after_suffix)
        &&& self.argument matches Some(argument) ==> argument.is_valid()
        &&& is_gap(self.before_parenthesis) && is_gap(self.after_parenthesis)
        &&& is_resource_name(self.name)
    }

    /// `(`, then the name in quotation marks.
    pub open spec fn arguments(self) -> Seq<char> {
        "("@ + (self.after_parenthesis + ("\""@ + (self.name + "\""@)))
    }

    /// What stands between the suffix and the opening parenthesis.
    pub open spec fn before_arguments(self) -> Seq<char> {
        match self.argument {
            Some(argument) => self.after_suffix + (argument.text() + self.before_parenthesis),
            None => self.after_suffix + self.before_parenthesis,
        }
    }

    pub open spec fn text(self) -> Seq<char> {
        "builder"@ + (self.before_dot + ("."@ + (self.after_dot + ("Add"@ + (self.suffix + (
        self.before_arguments() + self.arguments()))))))
    }

    /// The last part of the type argument; empty where there is none.
    pub open spec fn project_type(self) -> Seq<char> {
        match self.argument {
            Some(argument) => argument.name,
            None => Seq::empty(),
        }
    }

    /// The call stands in `source` at the byte offset `offset`.
    pub open spec fn stands_at(self, source: Seq<char>, offset: usize) -> bool {
        self.is_valid() && stands_at_offset(self.text(), source, offset)
    }
}

/// A call `name(` or `name("argument"`, up to the end of its first argument where that is quoted.
pub struct OpenApiCall {
    pub name: Seq<char>,
    pub before_parenthesis: Seq<char>,
    pub after_parenthesis: Seq<char>,
    pub argument: Option<Seq<char>>,
}

impl OpenApiCall {
    pub open spec fn is_valid(self) -> bool {
        &&& is_gap(self.before_parenthesis) && is_gap(self.after_parenthesis)
        &&& self.argument matches Some(argument) ==> !argument.contains('"')
    }

    /// The argument in quotation marks, where there is one.
    pub open spec fn quoted(self) -> Seq<char> {
        match self.argument {
            Some(argument) => "\""@ + (argument + "\""@),
            None => Seq::empty(),
        }
    }

    pub open spec fn text(self) -> Seq<char> {
        self.name + (self.before_parenthesis + ("("@ + (self.after_parenthesis + self.quoted())))
    }

    /// The call stands in `source` at the byte offset `offset`. It lacks an argument only where none
    /// stands there in quotation marks.
    pub open spec fn stands_at(self, source: Seq<char>, offset: usize) -> bool {
        &&& self.is_valid()
        &&& stands_at_offset(self.text(), source, offset)
        &&& self.argument is None ==> forall|other: OpenApiCall|
            other.is_valid() && other.name == self.name && other.argument is Some
                ==> !stands_at_offset(#[trigger] other.text(), source, offset)
    }

    /// The call registers an OpenAPI document.
    pub open spec fn registers_at(self, source: Seq<char>, offset: usize) -> bool {
        &&& self.name == "AddOpenApi"@ || self.name == "AddOpenApiDefaults"@
        &&& self.stands_at(source, offset)
    }

    /// The call maps OpenAPI documents.
    pub open spec fn maps_at(self, source: Seq<char>, offset: usize) -> bool {
        self.name == "MapOpenApi"@ && self.stands_at(source, offset)
    }
}

/// `source` adds a resource somewhere.
pub open spec fn adds_resource(source: Seq<char>) -> bool {
    exists|call: AddCall, offset: usize| call.stands_at(source, offset)
}

/// The characters `s` stand in `source` at the byte offset `offset`.
pub open spec fn stands_at_offset(s: Seq<char>, source: Seq<char>, offset: usize) -> bool {
    let bytes = utf8::encode_utf8(source);
    let end = offset + utf8::encode_utf8(s).len();
    &&& utf8::is_char_boundary(bytes, offset as int)
    &&& end <= bytes.len()
    &&& bytes.subrange(offset as int, end) == utf8::encode_utf8(s)
}

/// `s` stands in `source` at the byte offset `start`, and the byte offset `offset` lies in the middle
/// of it.
pub open spec fn spans(s: Seq<char>, source: Seq<char>, start: usize, offset: usize) -> bool {
    &&& stands_at_offset(s, source, start)
    &&& start < offset < start + utf8::encode_utf8(s).len()
}

/// `t` starts with `s`.
spec fn starts_with(t: Seq<char>, s: Seq<char>) -> bool {
    s.len() <= t.len() && t.take(s.len() as int) == s
}

/// What starts with two texts in a row starts with the one, and goes on with the other.
proof fn peel(t: Seq<char>, a: Seq<char>, b: Seq<char>)
    requires
        starts_with(t, a + b),
    ensures
        starts_with(t, a),
        starts_with(t.skip(a.len() as int), b),
{
    assert(t.take(a.len() as int) =~= (a + b).take(a.len() as int));
    assert((a + b).take(a.len() as int) =~= a);
    assert(t.skip(a.len() as int).take(b.len() as int) =~= (a + b).skip(a.len() as int));
    assert((a + b).skip(a.len() as int) =~= b);
}

/// Two runs of characters of a class, each followed by a character outside it, are the same where
/// the same text starts with both.
proof fn same_run(
    t: Seq<char>,
    kind: spec_fn(char) -> bool,
    a: Seq<char>,
    x: Seq<char>,
    b: Seq<char>,
    y: Seq<char>,
)
    requires
        starts_with(t, a + x),
        starts_with(t, b + y),
        forall|k: int| 0 <= k < a.len() ==> kind(#[trigger] a[k]),
        forall|k: int| 0 <= k < b.len() ==> kind(#[trigger] b[k]),
        x.len() > 0 && !kind(x[0]),
        y.len() > 0 && !kind(y[0]),
    ensures
        a == b,
        starts_with(t.skip(a.len() as int), x),
        starts_with(t.skip(a.len() as int), y),
{
    peel(t, a, x);
    peel(t, b, y);
    assert(t[a.len() as int] == t.skip(a.len() as int).take(x.len() as int)[0]);
    assert(t[b.len() as int] == t.skip(b.len() as int).take(y.len() as int)[0]);
    if a.len() < b.len() {
        assert(t.take(b.len() as int)[a.len() as int] == b[a.len() as int]);
    } else if b.len() < a.len() {
        assert(t.take(a.len() as int)[b.len() as int] == a[b.len() as int]);
    }
    assert(a =~= b);
}

/// A text whose encoding starts with that of another starts with it.
proof fn encoding_starts_with(t: Seq<char>, s: Seq<char>)
    requires
        utf8::encode_utf8(s).len() <= utf8::encode_utf8(t).len(),
        utf8::encode_utf8(t).take(utf8::encode_utf8(s).len() as int) == utf8::encode_utf8(s),
    ensures
        starts_with(t, s),
    decreases s.len(),
{
    let long = utf8::encode_utf8(t);
    let short = utf8::encode_utf8(s);
    if s.len() == 0 {
        assert(t.take(0) =~= s);
    } else {
        utf8::encode_utf8_first_scalar(s);
        if t.len() == 0 {
            assert(long.len() == 0);
        }
        utf8::encode_utf8_first_scalar(t);
        assert(forall|k: int| 0 <= k < short.len() ==> short[k] == long[k]);
        assert(s[0] as u32 == t[0] as u32);
        utf8::char_u32_cast(s[0], t[0] as u32);
        utf8::char_u32_cast(t[0], t[0] as u32);
        let first = utf8::encode_scalar(s[0] as u32);
        let short_rest = utf8::encode_utf8(s.drop_first());
        let long_rest = utf8::encode_utf8(t.drop_first());
        assert(long_rest.take(short_rest.len() as int) =~= short_rest) by {
            assert forall|k: int| 0 <= k < short_rest.len() implies long_rest[k]
                == short_rest[k] by {
                assert(long[k + first.len()] == long_rest[k]);
                assert(short[k + first.len()] == short_rest[k]);
            }
        }
        encoding_starts_with(t.drop_first(), s.drop_first());
        assert(t.take(s.len() as int) =~= seq![t[0]] + t.drop_first().take(s.len() - 1));
        assert(s =~= seq![s[0]] + s.drop_first());
    }
}

/// The characters of `source` from the byte offset `offset` on.
spec fn text_from(source: Seq<char>, offset: usize) -> Seq<char> {
    let bytes = utf8::encode_utf8(source);
    utf8::decode_utf8(bytes.subrange(offset as int, bytes.len() as int))
}

/// What stands at an offset is what the characters from there on start with.
proof fn standing_starts(s: Seq<char>, source: Seq<char>, offset: usize)
    requires
        stands_at_offset(s, source, offset),
    ensures
        starts_with(text_from(source, offset), s),
{
    let bytes = utf8::encode_utf8(source);
    let tail = bytes.subrange(offset as int, bytes.len() as int);
    utf8::encode_utf8_valid_utf8(source);
    utf8::valid_utf8_split(bytes, offset as int);
    utf8::decode_utf8_encode_utf8(tail);
    assert(tail.take(utf8::encode_utf8(s).len() as int) =~= bytes.subrange(
        offset as int,
        offset + utf8::encode_utf8(s).len(),
    ));
    encoding_starts_with(text_from(source, offset), s);
}

/// White space, as a class of characters.
spec fn white_space() -> spec_fn(char) -> bool {
    |c: char| is_white_space(c)
}

/// A character of a type's full name.
spec fn type_character() -> spec_fn(char) -> bool {
    |c: char| c == '.' || c == '_' || is_letter_or_digit(c)
}

/// Anything but a quotation mark.
spec fn unquoted() -> spec_fn(char) -> bool {
    |c: char| c != '"'
}

/// The parenthesis and the quoted name that end a call can be read in one way only.
proof fn same_arguments(t: Seq<char>, a: AddCall, b: AddCall)
    requires
        a.is_valid() && starts_with(t, a.arguments()),
        b.is_valid() && starts_with(t, b.arguments()),
    ensures
        a.name == b.name,
{
    reveal_strlit("(");
    reveal_strlit("\"");
    let quote = "\""@;
    peel(t, "("@, a.after_parenthesis + (quote + (a.name + quote)));
    peel(t, "("@, b.after_parenthesis + (quote + (b.name + quote)));
    let t = t.skip("("@.len() as int);
    same_run(
        t,
        white_space(),
        a.after_parenthesis,
        quote + (a.name + quote),
        b.after_parenthesis,
        quote + (b.name + quote),
    );
    let t = t.skip(a.after_parenthesis.len() as int);
    peel(t, quote, a.name + quote);
    peel(t, quote, b.name + quote);
    same_run(t.skip(quote.len() as int), unquoted(), a.name, quote, b.name, quote);
}

/// What follows the last dot of a type's full name is its name.
proof fn same_type_name(a: TypeArgument, b: TypeArgument)
    requires
        a.is_valid(),
        b.is_valid(),
        a.qualification + a.name == b.qualification + b.name,
    ensures
        a.name == b.name,
{
    let full = a.qualification + a.name;
    assert(full.len() == b.qualification.len() + b.name.len());
    if a.name.len() < b.name.len() {
        assert(full[a.qualification.len() - 1] == '.');
        assert(full[a.qualification.len() - 1] == b.name[a.qualification.len() - 1
            - b.qualification.len()]);
    } else if b.name.len() < a.name.len() {
        assert(full[b.qualification.len() - 1] == '.');
        assert(full[b.qualification.len() - 1] == a.name[b.qualification.len() - 1
            - a.qualification.len()]);
    }
    assert(a.name =~= full.skip(a.qualification.len() as int));
    assert(b.name =~= full.skip(b.qualification.len() as int));
}

/// A type argument, and what follows it, can be read in one way only.
proof fn same_type_argument(
    t: Seq<char>,
    a: TypeArgument,
    x: Seq<char>,
    b: TypeArgument,
    y: Seq<char>,
)
    requires
        a.is_valid() && starts_with(t, a.text() + x),
        b.is_valid() && starts_with(t, b.text() + y),
    ensures
        a.name == b.name,
        exists|n: int| starts_with(#[trigger] t.skip(n), x) && starts_with(t.skip(n), y),
{
    reveal_strlit("<");
    reveal_strlit(">");
    let close = ">"@;
    let a_full = a.qualification + a.name;
    let b_full = b.qualification + b.name;
    assert(a.text() + x =~= "<"@ + (a.before + (a_full + (a.after + (close + x)))));
    assert(b.text() + y =~= "<"@ + (b.before + (b_full + (b.after + (close + y)))));
    peel(t, "<"@, a.before + (a_full + (a.after + (close + x))));
    peel(t, "<"@, b.before + (b_full + (b.after + (close + y))));
    let t1 = t.skip("<"@.len() as int);
    assert(type_character()(a_full[0]) && type_character()(b_full[0]));
    same_run(
        t1,
        white_space(),
        a.before,
        a_full + (a.after + (close + x)),
        b.before,
        b_full + (b.after + (close + y)),
    );
    let t2 = t1.skip(a.before.len() as int);
    assert(forall|k: int| 0 <= k < a_full.len() ==> type_character()(#[trigger] a_full[k]));
    assert(forall|k: int| 0 <= k < b_full.len() ==> type_character()(#[trigger] b_full[k]));
    same_run(
        t2,
        type_character(),
        a_full,
        a.after + (close + x),
        b_full,
        b.after + (close + y),
    );
    same_type_name(a, b);
    let t3 = t2.skip(a_full.len() as int);
    same_run(t3, white_space(), a.after, close + x, b.after, close + y);
    let t4 = t3.skip(a.after.len() as int);
    peel(t4, close, x);
    peel(t4, close, y);
    let n: int = ("<"@.len() + a.before.len() + a_full.len() + a.after.len() + close.len()) as int;
    assert(t4.skip(close.len() as int) =~= t.skip(n));
}

/// What follows the suffix of a call can be read in one way only.
proof fn same_after_suffix(t: Seq<char>, a: AddCall, b: AddCall)
    requires
        a.is_valid() && starts_with(t, a.before_arguments() + a.arguments()),
        b.is_valid() && starts_with(t, b.before_arguments() + b.arguments()),
    ensures
        a.project_type() == b.project_type(),
        a.name == b.name,
{
    let (a_gap, a_rest) = after_first_gap(a);
    let (b_gap, b_rest) = after_first_gap(b);
    same_run(t, white_space(), a_gap, a_rest, b_gap, b_rest);
    let t = t.skip(a_gap.len() as int);
    assert(t[0] == t.take(a_rest.len() as int)[0]);
    assert(t[0] == t.take(b_rest.len() as int)[0]);
    if a.argument is Some {
        let x = a.before_parenthesis + a.arguments();
        let y = b.before_parenthesis + b.arguments();
        same_type_argument(t, a.argument->0, x, b.argument->0, y);
        let n = choose|n: int|
            starts_with(#[trigger] t.skip(n), x) && starts_with(t.skip(n), y);
        reveal_strlit("(");
        same_run(
            t.skip(n),
            white_space(),
            a.before_parenthesis,
            a.arguments(),
            b.before_parenthesis,
            b.arguments(),
        );
        same_arguments(t.skip(n).skip(a.before_parenthesis.len() as int), a, b);
    } else {
        same_arguments(t, a, b);
    }
}

/// What follows the suffix of a call is white space, and then the type argument or, where there is
/// none, the parenthesis.
proof fn after_first_gap(call: AddCall) -> (r: (Seq<char>, Seq<char>))
    requires
        call.is_valid(),
    ensures
        call.before_arguments() + call.arguments() == r.0 + r.1,
        is_gap(r.0),
        r.1.len() > 0,
        match call.argument {
            Some(argument) => {
                &&& r.1[0] == '<'
                &&& r.1 == argument.text() + (call.before_parenthesis + call.arguments())
            },
            None => r.1[0] == '(' && r.1 == call.arguments(),
        },
{
    reveal_strlit("(");
    reveal_strlit("<");
    match call.argument {
        Some(argument) => {
            let rest = argument.text() + (call.before_parenthesis + call.arguments());
            assert(call.before_arguments() + call.arguments() =~= call.after_suffix + rest);
            (call.after_suffix, rest)
        },
        None => (call.after_suffix + call.before_parenthesis, call.arguments()),
    }
}

/// Two calls that stand at the same place add a resource in the same way, of the same type and
/// under the same name.
pub proof fn one_add_call_at_a_place(a: AddCall, b: AddCall, source: Seq<char>, offset: usize)
    requires
        a.stands_at(source, offset),
        b.stands_at(source, offset),
    ensures
        a.suffix == b.suffix,
        a.project_type() == b.project_type(),
        a.name == b.name,
{
    reveal_strlit("builder");
    reveal_strlit(".");
    reveal_strlit("Add");
    let a5 = a.before_arguments() + a.arguments();
    let b5 = b.before_arguments() + b.arguments();
    let a4 = "Add"@ + (a.suffix + a5);
    let b4 = "Add"@ + (b.suffix + b5);
    let a3 = "."@ + (a.after_dot + a4);
    let b3 = "."@ + (b.after_dot + b4);
    let t = text_from(source, offset);
    standing_starts(a.text(), source, offset);
    standing_starts(b.text(), source, offset);
    peel(t, "builder"@, a.before_dot + a3);
    peel(t, "builder"@, b.before_dot + b3);
    let t = t.skip("builder"@.len() as int);
    same_run(t, white_space(), a.before_dot, a3, b.before_dot, b3);
    let t = t.skip(a.before_dot.len() as int);
    peel(t, "."@, a.after_dot + a4);
    peel(t, "."@, b.after_dot + b4);
    let t = t.skip("."@.len() as int);
    same_run(t, white_space(), a.after_dot, a4, b.after_dot, b4);
    let t = t.skip(a.after_dot.len() as int);
    peel(t, "Add"@, a.suffix + a5);
    peel(t, "Add"@, b.suffix + b5);
    let t = t.skip("Add"@.len() as int);
    after_first_gap(a);
    after_first_gap(b);
    same_run(t, |c: char| is_letter_or_digit(c), a.suffix, a5, b.suffix, b5);
    same_after_suffix(t.skip(a.suffix.len() as int), a, b);
}

/// Two calls of the same name that stand at the same place have the same argument.
proof fn same_openapi_argument(a: OpenApiCall, b: OpenApiCall, source: Seq<char>, offset: usize)
    requires
        a.stands_at(source, offset),
        b.stands_at(source, offset),
        a.name == b.name,
    ensures
        a.argument == b.argument,
{
    assert(stands_at_offset(a.text(), source, offset));
    assert(stands_at_offset(b.text(), source, offset));
    if a.argument is Some && b.argument is Some {
        reveal_strlit("(");
        reveal_strlit("\"");
        let quote = "\""@;
        let t = text_from(source, offset);
        standing_starts(a.text(), source, offset);
        standing_starts(b.text(), source, offset);
        let a2 = "("@ + (a.after_parenthesis + a.quoted());
        let b2 = "("@ + (b.after_parenthesis + b.quoted());
        peel(t, a.name, a.before_parenthesis + a2);
        peel(t, b.name, b.before_parenthesis + b2);
        let t = t.skip(a.name.len() as int);
        same_run(t, white_space(), a.before_parenthesis, a2, b.before_parenthesis, b2);
        let t = t.skip(a.before_parenthesis.len() as int);
        peel(t, "("@, a.after_parenthesis + a.quoted());
        peel(t, "("@, b.after_parenthesis + b.quoted());
        let t = t.skip("("@.len() as int);
        same_run(
            t,
            white_space(),
            a.after_parenthesis,
            a.quoted(),
            b.after_parenthesis,
            b.quoted(),
        );
        let t = t.skip(a.after_parenthesis.len() as int);
        peel(t, quote, a.argument->0 + quote);
        peel(t, quote, b.argument->0 + quote);
        let t = t.skip(quote.len() as int);
        same_run(t, unquoted(), a.argument->0, quote, b.argument->0, quote);
    }
}

/// Where `AddOpenApi` is called, `AddOpenApiDefaults` is not.
proof fn names_exclude_each_other(
    a: OpenApiCall,
    b: OpenApiCall,
    source: Seq<char>,
    offset: usize,
)
    requires
        a.stands_at(source, offset),
        b.stands_at(source, offset),
        a.name == "AddOpenApi"@,
    ensures
        b.name != "AddOpenApiDefaults"@,
{
    reveal_strlit("AddOpenApi");
    reveal_strlit("AddOpenApiDefaults");
    reveal_strlit("(");
    let t = text_from(source, offset);
    standing_starts(a.text(), source, offset);
    standing_starts(b.text(), source, offset);
    assert(t[10] == t.take(a.text().len() as int)[10]);
    assert(a.text()[10] == '(' || is_white_space(a.text()[10]));
    if b.name == "AddOpenApiDefaults"@ {
        assert(t[10] == t.take(b.text().len() as int)[10]);
        assert(b.text()[10] == 'D');
    }
}

/// Two calls that stand at the same place register the same document.
pub proof fn one_registration_at_a_place(
    a: OpenApiCall,
    b: OpenApiCall,
    source: Seq<char>,
    offset: usize,
)
    requires
        a.registers_at(source, offset),
        b.registers_at(source, offset),
    ensures
        a.argument == b.argument,
{
    if a.name == "AddOpenApi"@ {
        names_exclude_each_other(a, b, source, offset);
    } else if b.name == "AddOpenApi"@ {
        names_exclude_each_other(b, a, source, offset);
    }
    same_openapi_argument(a, b, source, offset);
}

/// Two calls that stand at the same place map documents in the same way.
pub proof fn one_mapping_at_a_place(
    a: OpenApiCall,
    b: OpenApiCall,
    source: Seq<char>,
    offset: usize,
)
    requires
        a.maps_at(source, offset),
        b.maps_at(source, offset),
    ensures
        a.argument == b.argument,
{
    same_openapi_argument(a, b, source, offset);
}

/// A byte offset at which the characters before it end lies between two characters.
pub proof fn end_of_text_is_boundary(before: Seq<char>, after: Seq<char>)
    ensures
        utf8::is_char_boundary(
            utf8::encode_utf8(before + after),
            utf8::encode_utf8(before).len() as int,
        ),
{
    let bytes = utf8::encode_utf8(before + after);
    let index = utf8::encode_utf8(before).len() as int;
    let rest = utf8::encode_utf8(after);
    resources::encoding_adds_up(before, after);
    utf8::encode_utf8_valid_utf8(before + after);
    utf8::encode_utf8_valid_utf8(after);
    if index == bytes.len() {
        utf8::is_char_boundary_start_end_of_seq(bytes);
    } else {
        utf8::is_char_boundary_start_end_of_seq(rest);
        utf8::is_char_boundary_iff_not_is_continuation_byte(rest, 0);
        utf8::is_char_boundary_iff_not_is_continuation_byte(bytes, index);
        assert(bytes[index] == rest[0]);
    }
}

/// What is written between two texts stands at the byte offset at which the first of them ends.
pub proof fn written_text_stands(before: Seq<char>, s: Seq<char>, after: Seq<char>)
    requires
        utf8::encode_utf8(before).len() <= usize::MAX,
    ensures
        stands_at_offset(s, before + s + after, utf8::encode_utf8(before).len() as usize),
{
    let source = before + s + after;
    assert(source =~= before + (s + after));
    end_of_text_is_boundary(before, s + after);
    resources::encoding_adds_up(before, s + after);
    resources::encoding_adds_up(s, after);
    let start = utf8::encode_utf8(before).len() as int;
    assert(utf8::encode_utf8(source).subrange(start, start + utf8::encode_utf8(s).len())
        =~= utf8::encode_utf8(s));
}

/// What stands at a byte offset is written between two texts, the first of which ends there.
pub proof fn standing_text_is_written(s: Seq<char>, source: Seq<char>, offset: usize) -> (r: (
    Seq<char>,
    Seq<char>,
))
    requires
        stands_at_offset(s, source, offset),
    ensures
        source == r.0 + s + r.1,
        utf8::encode_utf8(r.0).len() == offset,
{
    let bytes = utf8::encode_utf8(source);
    let head = bytes.subrange(0, offset as int);
    let before = utf8::decode_utf8(head);
    let rest = text_from(source, offset);
    utf8::encode_utf8_valid_utf8(source);
    utf8::encode_utf8_decode_utf8(source);
    utf8::valid_utf8_split(bytes, offset as int);
    utf8::decode_utf8_split(bytes, offset as int);
    utf8::decode_utf8_encode_utf8(head);
    standing_starts(s, source, offset);
    let after = rest.skip(s.len() as int);
    assert(rest =~= s + after);
    assert(source =~= before + s + after);
    (before, after)
}

/// Of two beginnings of a text, the one with fewer bytes has fewer characters.
pub proof fn fewer_bytes_fewer_characters(
    a: Seq<char>,
    x: Seq<char>,
    b: Seq<char>,
    y: Seq<char>,
)
    requires
        a + x == b + y,
        utf8::encode_utf8(a).len() < utf8::encode_utf8(b).len(),
    ensures
        a.len() < b.len(),
{
    if b.len() <= a.len() {
        let more = a.skip(b.len() as int);
        assert(a =~= b + more) by {
            assert(forall|k: int| 0 <= k < b.len() ==> a[k] == (a + x)[k] && b[k] == (b + y)[k]);
        }
        resources::encoding_adds_up(b, more);
    }
}

/// What spans a byte offset begins before the character there and ends after it.
pub proof fn span_is_written(
    s: Seq<char>,
    source: Seq<char>,
    start: usize,
    before: Seq<char>,
    after: Seq<char>,
    offset: usize,
) -> (r: (Seq<char>, Seq<char>))
    requires
        spans(s, source, start, offset),
        source == before + after,
        utf8::encode_utf8(before).len() == offset,
    ensures
        source == r.0 + s + r.1,
        r.0.len() < before.len() < r.0.len() + s.len(),
{
    let (a, b) = standing_text_is_written(s, source, start);
    assert(a + (s + b) =~= source);
    fewer_bytes_fewer_characters(a, s + b, before, after);
    resources::encoding_adds_up(a, s);
    assert((a + s) + b =~= source);
    fewer_bytes_fewer_characters(before, after, a + s, b);
    (a, b)
}

/// What comes before the type argument of a call, or where it would be.
spec fn call_start(call: AddCall) -> Seq<char> {
    "builder"@ + (call.before_dot + ("."@ + (call.after_dot + ("Add"@ + (call.suffix
        + call.after_suffix)))))
}

/// The type argument of a call, where it has one.
spec fn call_type(call: AddCall) -> Seq<char> {
    match call.argument {
        Some(argument) => argument.text(),
        None => Seq::empty(),
    }
}

/// What comes between the type argument of a call and its name.
spec fn call_opening(call: AddCall) -> Seq<char> {
    call.before_parenthesis + ("("@ + call.after_parenthesis)
}

/// What comes before the name of a call and its quotation marks.
spec fn call_head(call: AddCall) -> Seq<char> {
    call_start(call) + call_type(call) + call_opening(call)
}

/// The position of the first dot of a call.
spec fn first_dot(call: AddCall) -> int {
    7 + call.before_dot.len() as int
}

/// A call is its head and its name in quotation marks.
proof fn call_is_head_and_name(call: AddCall)
    ensures
        call.text() == call_head(call) + ("\""@ + (call.name + "\""@)),
{
    let name = "\""@ + (call.name + "\""@);
    match call.argument {
        Some(argument) => {
            assert(call.before_arguments() + call.arguments() =~= call.after_suffix
                + argument.text() + call_opening(call) + name);
        },
        None => {
            assert(call.before_arguments() + call.arguments() =~= call.after_suffix
                + call_opening(call) + name);
        },
    }
    assert(call.text() =~= call_head(call) + name);
}

/// What a call starts with: `builder`, white space and a dot, and then neither a dot nor a bracket.
proof fn start_of_call(call: AddCall)
    requires
        call.is_valid(),
    ensures
        ({
            let start = call_start(call);
            let dot = first_dot(call);
            &&& 0 <= dot < start.len()
            &&& start.take(7) == "builder"@
            &&& forall|k: int| 7 <= k < dot ==> is_white_space(#[trigger] start[k])
            &&& start[dot] == '.'
            &&& forall|k: int|
                0 <= k < start.len() ==> #[trigger] start[k] != '<' && start[k] != '>' && start[k]
                    != '"' && (k != dot ==> start[k] != '.')
        }),
{
    reveal_strlit("builder");
    reveal_strlit(".");
    reveal_strlit("Add");
    let start = call_start(call);
    let dot = first_dot(call);
    let tail = call.after_dot + ("Add"@ + (call.suffix + call.after_suffix));
    assert(start =~= "builder"@ + call.before_dot + "."@ + tail);
    assert(start.take(7) =~= "builder"@);
    assert forall|k: int| 7 <= k < dot implies is_white_space(#[trigger] start[k]) by {
        assert(start[k] == call.before_dot[k - 7]);
    }
    assert forall|k: int| 0 <= k < tail.len() implies #[trigger] tail[k] != '<' && tail[k] != '>'
        && tail[k] != '"' && tail[k] != '.' by {
        let a = call.after_dot.len() as int;
        let b = a + 3;
        let c = b + call.suffix.len();
        if k < a {
            assert(tail[k] == call.after_dot[k]);
        } else if k < b {
            assert(tail[k] == "Add"@[k - a]);
        } else if k < c {
            assert(tail[k] == call.suffix[k - b]);
        } else {
            assert(tail[k] == call.after_suffix[k - c]);
        }
    }
    assert forall|k: int| 0 <= k < start.len() implies #[trigger] start[k] != '<' && start[k] != '>'
        && start[k] != '"' && (k != dot ==> start[k] != '.') by {
        if k < 7 {
            assert(start[k] == "builder"@[k]);
        } else if k < dot {
            assert(is_white_space(start[k]));
        } else if k > dot {
            assert(start[k] == tail[k - dot - 1]);
        }
    }
}

/// A type argument has a bracket at its start, one at its end, and none within.
proof fn brackets_of_type(argument: TypeArgument)
    requires
        argument.is_valid(),
    ensures
        ({
            let s = argument.text();
            &&& s.len() >= 2
            &&& s[0] == '<' && s.last() == '>'
            &&& forall|k: int| 0 <= k < s.len() ==> #[trigger] s[k] != '"'
            &&& forall|k: int| 0 < k < s.len() - 1 ==> #[trigger] s[k] != '<' && s[k] != '>'
        }),
{
    reveal_strlit("<");
    reveal_strlit(">");
    let s = argument.text();
    let a = 1 + argument.before.len();
    let b = a + argument.qualification.len();
    let c = b + argument.name.len();
    assert forall|k: int| 0 < k < s.len() - 1 implies #[trigger] s[k] != '<' && s[k] != '>' && s[k]
        != '"' by {
        if k < a {
            assert(s[k] == argument.before[k - 1]);
        } else if k < b {
            assert(s[k] == argument.qualification[k - a]);
        } else if k < c {
            assert(s[k] == argument.name[k - b]);
        } else {
            assert(s[k] == argument.after[k - c]);
        }
    }
}

/// Between the type argument of a call and its name stand neither dots nor brackets of types.
proof fn opening_of_call(call: AddCall)
    requires
        call.is_valid(),
    ensures
        forall|k: int|
            0 <= k < call_opening(call).len() ==> {
                let c = #[trigger] call_opening(call)[k];
                c != '.' && c != '<' && c != '>' && c != '"'
            },
{
    reveal_strlit("(");
    let s = call_opening(call);
    let a = call.before_parenthesis.len() as int;
    assert forall|k: int| 0 <= k < s.len() implies {
        let c = #[trigger] s[k];
        c != '.' && c != '<' && c != '>' && c != '"'
    } by {
        if k < a {
            assert(s[k] == call.before_parenthesis[k]);
        } else if k > a {
            assert(s[k] == call.after_parenthesis[k - a - 1]);
        }
    }
}

/// The shape of the head of a call: no quotation marks; a dot after the first only between the
/// brackets of the type argument, which stand there and nowhere else.
proof fn shape_of_head(call: AddCall)
    requires
        call.is_valid(),
    ensures
        ({
            let head = call_head(call);
            let dot = first_dot(call);
            let left = call_start(call).len() as int;
            let right = left + call_type(call).len() - 1;
            &&& 7 <= dot < left <= head.len()
            &&& head.take(7) == "builder"@
            &&& forall|k: int| 7 <= k < dot ==> is_white_space(#[trigger] head[k])
            &&& head[dot] == '.'
            &&& forall|k: int| 0 <= k < dot ==> #[trigger] head[k] != '.'
            &&& forall|k: int| 0 <= k < head.len() ==> #[trigger] head[k] != '"'
            &&& forall|k: int| 0 <= k < head.len() && #[trigger] head[k] == '<' ==> k == left
            &&& forall|k: int|
                0 <= k < head.len() && #[trigger] head[k] == '>' ==> call.argument is Some
            &&& forall|k: int|
                dot < k < head.len() && #[trigger] head[k] == '.' ==> call.argument is Some && left
                    < k < right
            &&& call.argument is Some ==> left < right < head.len() && head[left] == '<'
                && head[right] == '>'
        }),
{
    let head = call_head(call);
    let dot = first_dot(call);
    let start = call_start(call);
    let middle = call_type(call);
    let left = start.len() as int;
    let end = left + middle.len();
    start_of_call(call);
    opening_of_call(call);
    if call.argument is Some {
        brackets_of_type(call.argument->0);
    }
    assert(head.take(7) =~= start.take(7));
    assert(forall|k: int| 0 <= k < left ==> #[trigger] head[k] == start[k]);
    assert(forall|k: int| left <= k < end ==> #[trigger] head[k] == middle[k - left]);
    assert(forall|k: int|
        end <= k < head.len() ==> #[trigger] head[k] == call_opening(call)[k - end]);
}

/// The head of a call cannot go on with the head of another after its start.
proof fn head_holds_no_head(outer: AddCall, inner: AddCall, d: int)
    requires
        outer.is_valid(),
        inner.is_valid(),
        0 < d <= call_head(outer).len(),
    ensures
        call_head(outer).skip(d) != call_head(inner),
{
    let long = call_head(outer);
    let short = call_head(inner);
    let f = first_dot(outer);
    let g = first_dot(inner);
    shape_of_head(outer);
    shape_of_head(inner);
    if long.skip(d) == short {
        assert(forall|k: int| 0 <= k < short.len() ==> #[trigger] short[k] == long[d + k]);
        assert(short[g] == long[d + g]);
    }
    if long.skip(d) != short {
    } else if d + g == f {
        reveal_strlit("builder");
        assert(short[6] == "builder"@[6]) by {
            assert(short.take(7)[6] == short[6]);
        }
        assert(short[6] == long[d + 6]);
        assert(is_white_space(long[d + 6]));
    } else {
        assert(d + g > f);
        let right = call_start(outer).len() + call_type(outer).len() - 1;
        assert(long[right] == '>');
        assert(short[right - d] == '>');
        let left = call_start(inner).len() as int;
        assert(short[left] == '<');
        assert(long[d + left] == '<');
    }
}

/// Two texts without quotation marks that start at different places and are both followed by one, the
/// second not after the first has ended, end at the same place.
proof fn heads_end_together(
    source: Seq<char>,
    start: int,
    long: Seq<char>,
    d: int,
    short: Seq<char>,
)
    requires
        0 <= start,
        0 <= d <= long.len(),
        start + long.len() < source.len(),
        start + d + short.len() < source.len(),
        source.subrange(start, start + long.len()) == long,
        source[start + long.len()] == '"',
        source.subrange(start + d, start + d + short.len()) == short,
        source[start + d + short.len()] == '"',
        !long.contains('"'),
        !short.contains('"'),
    ensures
        long.skip(d) == short,
{
    if d + short.len() < long.len() {
        assert(source.subrange(start, start + long.len())[d + short.len()] == '"');
        assert(long.contains(long[d + short.len()]));
    } else if d + short.len() > long.len() {
        assert(source.subrange(start + d, start + d + short.len())[long.len() - d] == '"');
        assert(short.contains(short[long.len() - d]));
    }
    assert forall|k: int| 0 <= k < short.len() implies long[d + k] == short[k] by {
        assert(source.subrange(start, start + long.len())[d + k] == source[start + d + k]);
        assert(source.subrange(start + d, start + d + short.len())[k] == source[start + d + k]);
    }
    assert(long.skip(d) =~= short);
}

/// A text that ends within a quoted name ends after the quotation mark before it and the beginning
/// of the name.
proof fn text_up_to_a_name(
    a: Seq<char>,
    head: Seq<char>,
    name: Seq<char>,
    b: Seq<char>,
    before: Seq<char>,
    rest: Seq<char>,
)
    requires
        a + (head + ("\""@ + (name + "\""@))) + b == before + rest,
        a.len() + head.len() < before.len() <= a.len() + head.len() + 1 + name.len(),
    ensures
        before == a + head + "\""@ + name.take(before.len() - a.len() - head.len() - 1),
{
    reveal_strlit("\"");
    let source = a + (head + ("\""@ + (name + "\""@))) + b;
    let v = name.take(before.len() - a.len() - head.len() - 1);
    assert(before =~= source.take(before.len() as int));
    assert(source.take(before.len() as int) =~= a + head + "\""@ + v);
}

/// A call that starts in the middle of another starts within its name: between the two starts stand
/// `builder` and exactly one quotation mark.
pub proof fn call_within_starts_in_the_name(
    a: Seq<char>,
    outer: AddCall,
    b: Seq<char>,
    before: Seq<char>,
    inner: AddCall,
    after: Seq<char>,
) -> (r: (Seq<char>, Seq<char>))
    requires
        outer.is_valid(),
        inner.is_valid(),
        a + outer.text() + b == before + inner.text() + after,
        a.len() < before.len() < a.len() + outer.text().len(),
    ensures
        before == a + "builder"@ + r.0 + "\""@ + r.1,
        !r.0.contains('"'),
        !r.1.contains('"'),
{
    let source = a + outer.text() + b;
    let long = call_head(outer);
    let short = call_head(inner);
    let d = before.len() - a.len();
    let name = "\""@ + (outer.name + "\""@);
    let other = "\""@ + (inner.name + "\""@);
    reveal_strlit("\"");
    reveal_strlit("builder");
    call_is_head_and_name(outer);
    call_is_head_and_name(inner);
    shape_of_head(outer);
    shape_of_head(inner);
    if d <= long.len() {
        let start = a.len() as int;
        assert(source.subrange(start, start + long.len()) =~= long);
        assert(source[start + long.len()] == name[0]);
        assert((before + (short + other) + after).subrange(
            start + d,
            start + d + short.len(),
        ) =~= short);
        assert((before + (short + other) + after)[start + d + short.len()] == other[0]);
        heads_end_together(source, start, long, d, short);
        head_holds_no_head(outer, inner, d);
    }
    let u = long.skip(7);
    let v = outer.name.take(d - long.len() - 1);
    assert(before + inner.text() + after =~= before + (inner.text() + after));
    assert(outer.text().len() == long.len() + outer.name.len() + 2);
    text_up_to_a_name(a, long, outer.name, b, before, inner.text() + after);
    assert(long =~= "builder"@ + u) by {
        assert(long =~= long.take(7) + u);
    }
    assert(a + ("builder"@ + u) =~= a + "builder"@ + u);
    (u, v)
}

/// A call starts with `builder` and ends with its name in quotation marks.
pub proof fn call_starts_and_ends(call: AddCall) -> (r: (Seq<char>, Seq<char>))
    ensures
        call.text() == "builder"@ + r.0,
        call.text() == r.1 + ("\""@ + call.name + "\""@),
{
    call_is_head_and_name(call);
    assert("\""@ + (call.name + "\""@) =~= "\""@ + call.name + "\""@);
    (
        call.before_dot + ("."@ + (call.after_dot + ("Add"@ + (call.suffix + (
        call.before_arguments() + call.arguments()))))),
        call_head(call),
    )
}

/// What comes before the quoted argument of a call.
spec fn openapi_head(call: OpenApiCall) -> Seq<char> {
    call.name + (call.before_parenthesis + ("("@ + call.after_parenthesis))
}

/// A registration that starts in the middle of another starts within its argument: between the two
/// starts stand `AddOpenApi` and exactly one quotation mark.
pub proof fn registration_within_starts_in_the_argument(
    a: Seq<char>,
    outer: OpenApiCall,
    b: Seq<char>,
    before: Seq<char>,
    rest: Seq<char>,
) -> (r: (Seq<char>, Seq<char>))
    requires
        outer.is_valid(),
        outer.name == "AddOpenApi"@ || outer.name == "AddOpenApiDefaults"@,
        a + outer.text() + b == before + rest,
        rest.len() >= 2 && rest[0] == 'A' && rest[1] == 'd',
        a.len() < before.len() < a.len() + outer.text().len(),
    ensures
        before == a + "AddOpenApi"@ + r.0 + "\""@ + r.1,
        !r.0.contains('"'),
        !r.1.contains('"'),
{
    let source = a + outer.text() + b;
    let head = openapi_head(outer);
    let d = before.len() - a.len();
    let n = outer.name.len() as int;
    reveal_strlit("\"");
    reveal_strlit("(");
    reveal_strlit("AddOpenApi");
    reveal_strlit("AddOpenApiDefaults");
    assert(outer.text() =~= head + outer.quoted());
    assert(source[before.len() as int] == 'A');
    assert(source[a.len() + d + 1] == 'd');
    assert forall|k: int| n <= k < head.len() implies #[trigger] head[k] == '(' || is_white_space(
        head[k],
    ) by {
        let m = n + outer.before_parenthesis.len();
        if k < m {
            assert(head[k] == outer.before_parenthesis[k - n]);
        } else if k > m {
            assert(head[k] == outer.after_parenthesis[k - m - 1]);
        }
    }
    assert(forall|k: int| 0 <= k < n ==> #[trigger] head[k] == outer.name[k]);
    if d < head.len() {
        assert(source[a.len() + d] == head[d]);
        if d == 7 {
            assert(source[a.len() + d + 1] == head[d + 1]);
        }
    }
    assert(d >= head.len());
    assert(outer.argument is Some);
    let argument = outer.argument->0;
    if d == head.len() {
        assert(source[a.len() + d] == outer.quoted()[0]);
    }
    text_up_to_a_name(a, head, argument, b, before, rest);
    let u = head.skip(10);
    let v = argument.take(d - head.len() - 1);
    assert(head =~= "AddOpenApi"@ + u);
    assert(!u.contains('"')) by {
        if u.contains('"') {
            let k = choose|k: int| 0 <= k < u.len() && u[k] == '"';
            assert(head[k + 10] == '"');
        }
    }
    assert(!v.contains('"')) by {
        if v.contains('"') {
            let k = choose|k: int| 0 <= k < v.len() && v[k] == '"';
            assert(argument[k] == '"');
        }
    }
    assert(a + ("AddOpenApi"@ + u) =~= a + "AddOpenApi"@ + u);
    (u, v)
}

/// Where a call without white space is closed at once, it has no quoted argument.
pub proof fn closed_call_has_no_argument(
    before: Seq<char>,
    name: Seq<char>,
    after: Seq<char>,
    offset: usize,
) -> (call: OpenApiCall)
    requires
        utf8::encode_utf8(before).len() == offset,
    ensures
        call.name == name,
        call.argument is None,
        call.text() == name + "("@,
        call.stands_at(before + (name + "()"@) + after, offset),
{
    let none = Seq::<char>::empty();
    let call = OpenApiCall {
        name,
        before_parenthesis: none,
        after_parenthesis: none,
        argument: None,
    };
    let source = before + (name + "()"@) + after;
    reveal_strlit("(");
    reveal_strlit("()");
    reveal_strlit("\"");
    assert(call.text() =~= name + "("@);
    assert(source =~= before + (name + "("@) + (seq![')'] + after));
    written_text_stands(before, call.text(), seq![')'] + after);
    assert forall|other: OpenApiCall|
        other.is_valid() && other.name == name && other.argument is Some
        implies !stands_at_offset(#[trigger] other.text(), source, offset) by {
        if stands_at_offset(other.text(), source, offset) {
            let t = text_from(source, offset);
            standing_starts(other.text(), source, offset);
            standing_starts(call.text(), source, offset);
            let tail = "("@ + (other.after_parenthesis + other.quoted());
            peel(t, name, other.before_parenthesis + tail);
            peel(t, name, "("@);
            let t1 = t.skip(name.len() as int);
            assert(none + "("@ =~= "("@);
            same_run(t1, white_space(), other.before_parenthesis, tail, none, "("@);
            assert(other.before_parenthesis + tail =~= tail);
            peel(t1, "("@, other.after_parenthesis + other.quoted());
            let t2 = t1.skip(1);
            let n = name.len() as int;
            let inner = other.after_parenthesis + other.quoted();
            assert(t2[0] == t2.take(inner.len() as int)[0]);
            let whole = name + "()"@;
            written_text_stands(before, whole, after);
            standing_starts(whole, source, offset);
            assert(t2[0] == t[n + 1]);
            assert(t[n + 1] == t.take(whole.len() as int)[n + 1]);
            if other.after_parenthesis.len() > 0 {
                assert(inner[0] == other.after_parenthesis[0]);
            } else {
                assert(inner[0] == '"');
            }
        }
    }
    call
}

/// A mapping that starts before a place and spans it has that place within its argument; one that
/// ends before it is written before it, with its argument in quotation marks where it has one.
pub proof fn mapping_before_a_place(
    a: Seq<char>,
    outer: OpenApiCall,
    b: Seq<char>,
    before: Seq<char>,
    rest: Seq<char>,
) -> (r: (Seq<char>, Seq<char>))
    requires
        outer.is_valid(),
        outer.name == "MapOpenApi"@,
        a + outer.text() + b == before + rest,
        rest.len() > 0 && rest[0] == 'M',
        a.len() < before.len(),
    ensures
        !r.0.contains('"'),
        before.len() < a.len() + outer.text().len() ==> {
            &&& before == a + "MapOpenApi"@ + r.0 + "\""@ + r.1
            &&& !r.1.contains('"')
        },
        before.len() >= a.len() + outer.text().len() ==> (outer.argument matches Some(argument)
            ==> before == a + "MapOpenApi"@ + r.0 + "\""@ + argument + "\""@ + r.1),
{
    let source = a + outer.text() + b;
    let head = openapi_head(outer);
    let u = head.skip(10);
    let d = before.len() - a.len();
    reveal_strlit("\"");
    reveal_strlit("(");
    reveal_strlit("MapOpenApi");
    assert(outer.text() =~= head + outer.quoted());
    assert(head =~= "MapOpenApi"@ + u);
    assert(u =~= outer.before_parenthesis + ("("@ + outer.after_parenthesis));
    assert forall|k: int| 0 <= k < u.len() implies #[trigger] u[k] == '(' || is_white_space(
        u[k],
    ) by {
        let m = outer.before_parenthesis.len() as int;
        if k < m {
            assert(u[k] == outer.before_parenthesis[k]);
        } else if k > m {
            assert(u[k] == outer.after_parenthesis[k - m - 1]);
        }
    }
    assert(!u.contains('"'));
    assert(source[a.len() + d] == 'M');
    if d < outer.text().len() {
        if d < head.len() {
            assert(source[a.len() + d] == head[d]);
            if d >= 10 {
                assert(head[d] == u[d - 10]);
            } else {
                assert(head[d] == "MapOpenApi"@[d]);
            }
        }
        assert(outer.argument is Some);
        let argument = outer.argument->0;
        if d == head.len() {
            assert(source[a.len() + d] == outer.quoted()[0]);
        }
        text_up_to_a_name(a, head, argument, b, before, rest);
        let v = argument.take(d - head.len() - 1);
        assert(!v.contains('"')) by {
            if v.contains('"') {
                let k = choose|k: int| 0 <= k < v.len() && v[k] == '"';
                assert(argument[k] == '"');
            }
        }
        assert(a + ("MapOpenApi"@ + u) =~= a + "MapOpenApi"@ + u);
        (u, v)
    } else {
        let v = before.skip((a + outer.text()).len() as int);
        assert(before =~= a + outer.text() + v) by {
            assert(before =~= source.take(before.len() as int));
        }
        if let Some(argument) = outer.argument {
            assert(before =~= a + "MapOpenApi"@ + u + "\""@ + argument + "\""@ + v);
        }
        (u, v)
    }
}

} // verus!

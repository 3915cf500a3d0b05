//! C++ code generation: one struct definition per spec struct, each
//! with its data members, a debug-printing method, a help method, an
//! option-recognition predicate, and the argument-parsing procedure.
//!
//! Every `*_chunk` spec function pins the emitted text exactly, so the
//! whole output is a mathematical function of the spec and the symbol
//! table.

use crate::generate::{left_pad, spaces};
use crate::text::{append_str, chars_to_string};
use crate::text::hyphenate;
use crate::types::{
    base_view, field_view, fields_view, find_struct, flatten_ok, flatten_resolvable, flatten_target,
    structs_view,
    ty_view, visible_fields, AttrV, AttributeType, BaseV, Field, FieldType, FieldV, Spec, SpecMetadata, SpecV,
    Struct, StructV, TyV,
};
use vstd::prelude::*;

verus! {

/// A line: padding, text, newline.
pub open spec fn line_at(ind: nat, s: Seq<char>) -> Seq<char> {
    spaces(ind) + s + "\n"@
}

/// The C++ type of an unwrapped field type.
pub open spec fn cpp_base_of(b: BaseV) -> Seq<char> {
    match b {
        BaseV::String => "std::string"@,
        BaseV::I16 => "int16_t"@,
        BaseV::U16 => "uint16_t"@,
        BaseV::I32 => "int32_t"@,
        BaseV::U32 => "uint32_t"@,
        BaseV::I64 => "int64_t"@,
        BaseV::U64 => "uint64_t"@,
        BaseV::F32 => "float"@,
        BaseV::F64 => "double"@,
        BaseV::Bool => "bool"@,
        BaseV::Struct(n) => n,
        BaseV::Nested => Seq::empty(),
    }
}

/// The C++ type of a field type.
pub open spec fn cpp_type_of(t: TyV) -> Seq<char> {
    match t {
        TyV::Base(b) => cpp_base_of(b),
        TyV::Vec(b) => "std::vector<"@ + cpp_base_of(b) + ">"@,
        TyV::Optional(b) => "std::optional<"@ + cpp_base_of(b) + ">"@,
    }
}

fn cpp_base_type(t: &FieldType) -> (r: String)
    requires
        !(*t is Vec),
        !(*t is Optional),
    ensures
        r@ == cpp_base_of(base_view(*t)),
{
    match t {
        FieldType::String => String::from_str("std::string"),
        FieldType::I16 => String::from_str("int16_t"),
        FieldType::U16 => String::from_str("uint16_t"),
        FieldType::I32 => String::from_str("int32_t"),
        FieldType::U32 => String::from_str("uint32_t"),
        FieldType::I64 => String::from_str("int64_t"),
        FieldType::U64 => String::from_str("uint64_t"),
        FieldType::F32 => String::from_str("float"),
        FieldType::F64 => String::from_str("double"),
        FieldType::Bool => String::from_str("bool"),
        FieldType::Struct(n) => n.clone(),
        FieldType::Vec(_) => {
            proof {
                assert(false);
            }
            String::new()
        },
        FieldType::Optional(_) => {
            proof {
                assert(false);
            }
            String::new()
        },
    }
}

/// The C++ type a field type maps to.
pub fn field_type_to_cpp_type(field_type: &FieldType) -> (r: String)
    requires
        ty_view(*field_type).wf(),
    ensures
        r@ == cpp_type_of(ty_view(*field_type)),
{
    match field_type {
        FieldType::Vec(inner) => {
            let mut v = crate::text::str_to_chars("std::vector<");
            let b = cpp_base_type(inner);
            append_str(&mut v, b.as_str());
            append_str(&mut v, ">");
            chars_to_string(&v)
        },
        FieldType::Optional(inner) => {
            let mut v = crate::text::str_to_chars("std::optional<");
            let b = cpp_base_type(inner);
            append_str(&mut v, b.as_str());
            append_str(&mut v, ">");
            chars_to_string(&v)
        },
        _ => cpp_base_type(field_type),
    }
}

/// Builds the generated C++ translation unit line by line, tracking
/// the current indentation.
#[derive(Debug)]
pub struct CppSourceBuilder {
    buffer: Vec<char>,
    indentation: usize,
}

impl CppSourceBuilder {
    /// The text built so far.
    pub closed spec fn buf(self) -> Seq<char> {
        self.buffer@
    }

    /// The current indentation.
    pub closed spec fn ind(self) -> nat {
        self.indentation as nat
    }

    pub fn empty() -> (r: CppSourceBuilder)
        ensures
            r.buf() == Seq::<char>::empty(),
            r.ind() == 0,
    {
        let r = CppSourceBuilder { buffer: Vec::new(), indentation: 0 };
        proof {
            assert(r.buffer@ =~= Seq::<char>::empty());
        }
        r
    }

    pub fn push_indentation_level(&mut self)
        requires
            old(self).ind() + 4 <= usize::MAX,
        ensures
            final(self).ind() == old(self).ind() + 4,
            final(self).buf() == old(self).buf(),
    {
        self.indentation += 4;
    }

    pub fn pop_indentation_level(&mut self)
        ensures
            final(self).ind() == if old(self).ind() >= 4 {
                (old(self).ind() - 4) as nat
            } else {
                old(self).ind()
            },
            final(self).buf() == old(self).buf(),
    {
        if self.indentation >= 4 {
            self.indentation -= 4;
        }
    }

    pub fn get_indentation_level(&self) -> (r: usize)
        ensures
            r == self.ind(),
    {
        self.indentation
    }

    pub fn set_indentation_level(&mut self, indentation: usize)
        ensures
            final(self).ind() == indentation,
            final(self).buf() == old(self).buf(),
    {
        self.indentation = indentation;
    }

    /// The built text, as a string.
    pub fn result(self) -> (r: String)
        ensures
            r@ == self.buf(),
    {
        chars_to_string(&self.buffer)
    }

    /// Padding, then the text, then a newline.
    fn put_line(&mut self, s: &str)
        ensures
            final(self).buf() == old(self).buf() + line_at(old(self).ind(), s@),
            final(self).ind() == old(self).ind(),
    {
        left_pad(self.indentation, &mut self.buffer);
        append_str(&mut self.buffer, s);
        append_str(&mut self.buffer, "\n");
        proof {
            assert(self.buffer@ =~= old(self).buffer@ + line_at(old(self).ind(), s@));
        }
    }

    /// A bare newline, with no padding.
    fn put_newline(&mut self)
        ensures
            final(self).buf() == old(self).buf() + "\n"@,
            final(self).ind() == old(self).ind(),
    {
        append_str(&mut self.buffer, "\n");
    }

    /// Padding, then the text, without a newline.
    fn put_text(&mut self, s: &str)
        ensures
            final(self).buf() == old(self).buf() + spaces(old(self).ind()) + s@,
            final(self).ind() == old(self).ind(),
    {
        left_pad(self.indentation, &mut self.buffer);
        append_str(&mut self.buffer, s);
        proof {
            assert(self.buffer@ =~= old(self).buffer@ + spaces(old(self).ind()) + s@);
        }
    }

    /// Padding, then the characters, then a newline.
    fn put_line_chars(&mut self, s: &Vec<char>)
        ensures
            final(self).buf() == old(self).buf() + line_at(old(self).ind(), s@),
            final(self).ind() == old(self).ind(),
    {
        left_pad(self.indentation, &mut self.buffer);
        let mut i: usize = 0;
        while i < s.len()
            invariant
                i <= s@.len(),
                self.buffer@ == old(self).buffer@ + spaces(old(self).ind()) + s@.subrange(
                    0,
                    i as int,
                ),
                self.indentation == old(self).indentation,
            decreases s@.len() - i,
        {
            self.buffer.push(s[i]);
            i += 1;
            proof {
                assert(self.buffer@ =~= old(self).buffer@ + spaces(old(self).ind())
                    + s@.subrange(0, i as int));
            }
        }
        append_str(&mut self.buffer, "\n");
        proof {
            assert(s@.subrange(0, s@.len() as int) =~= s@);
            assert(self.buffer@ =~= old(self).buffer@ + line_at(old(self).ind(), s@));
        }
    }

    /// Padding, then the characters, without a newline.
    fn put_text_chars(&mut self, s: &Vec<char>)
        ensures
            final(self).buf() == old(self).buf() + spaces(old(self).ind()) + s@,
            final(self).ind() == old(self).ind(),
    {
        left_pad(self.indentation, &mut self.buffer);
        let mut i: usize = 0;
        while i < s.len()
            invariant
                i <= s@.len(),
                self.buffer@ == old(self).buffer@ + spaces(old(self).ind()) + s@.subrange(
                    0,
                    i as int,
                ),
                self.indentation == old(self).indentation,
            decreases s@.len() - i,
        {
            self.buffer.push(s[i]);
            i += 1;
            proof {
                assert(self.buffer@ =~= old(self).buffer@ + spaces(old(self).ind())
                    + s@.subrange(0, i as int));
            }
        }
        proof {
            assert(s@.subrange(0, s@.len() as int) =~= s@);
        }
    }
}

/// The opening of the header guard.
pub open spec fn header_guard_start_chunk(ind: nat) -> Seq<char> {
    line_at(ind, "#ifndef _CLI_H_"@) + line_at(ind, "#define _CLI_H_"@) + "\n"@
}

/// The closing of the header guard.
pub open spec fn header_guard_end_chunk(ind: nat) -> Seq<char> {
    line_at(ind, "#endif // _CLI_H_"@)
}

/// The include lines.
pub open spec fn include_headers_chunk(ind: nat) -> Seq<char> {
    line_at(ind, "#include <cstdint>"@) + line_at(ind, "#include <cstdlib>"@) + line_at(
        ind,
        "#include <cstring>"@,
    ) + line_at(ind, "#include <cstdio>"@) + line_at(ind, "#include <cerrno>"@) + line_at(
        ind,
        "#include <string>"@,
    ) + line_at(ind, "#include <vector>"@) + "\n"@
}

/// The opening line of a struct definition.
pub open spec fn struct_start_chunk(ind: nat, name: Seq<char>) -> Seq<char> {
    line_at(ind, "struct "@ + name + " {"@)
}

/// The closing of a struct definition.
pub open spec fn struct_end_chunk(ind: nat) -> Seq<char> {
    line_at(ind, "};"@) + "\n"@
}

/// One data member.
pub open spec fn struct_field_chunk(ind: nat, f: FieldV) -> Seq<char> {
    line_at(ind + 4, cpp_type_of(f.ty) + " "@ + f.name + ";"@)
}

impl CppSourceBuilder {
    pub fn write_header_guard_start(&mut self)
        ensures
            final(self).buf() == old(self).buf() + header_guard_start_chunk(old(self).ind()),
            final(self).ind() == old(self).ind(),
    {
        self.put_line("#ifndef _CLI_H_");
        self.put_line("#define _CLI_H_");
        self.put_newline();
        proof {
            assert(self.buf() =~= old(self).buf() + header_guard_start_chunk(old(self).ind()));
        }
    }

    pub fn write_header_guard_end(&mut self)
        ensures
            final(self).buf() == old(self).buf() + header_guard_end_chunk(old(self).ind()),
            final(self).ind() == old(self).ind(),
    {
        self.put_line("#endif // _CLI_H_");
    }

    pub fn write_include_headers(&mut self)
        ensures
            final(self).buf() == old(self).buf() + include_headers_chunk(old(self).ind()),
            final(self).ind() == old(self).ind(),
    {
        self.put_line("#include <cstdint>");
        self.put_line("#include <cstdlib>");
        self.put_line("#include <cstring>");
        self.put_line("#include <cstdio>");
        self.put_line("#include <cerrno>");
        self.put_line("#include <string>");
        self.put_line("#include <vector>");
        self.put_newline();
        proof {
            assert(self.buf() =~= old(self).buf() + include_headers_chunk(old(self).ind()));
        }
    }

    pub fn write_struct_start(&mut self, struct_name: &String)
        ensures
            final(self).buf() == old(self).buf() + struct_start_chunk(
                old(self).ind(),
                struct_name@,
            ),
            final(self).ind() == old(self).ind(),
    {
        let mut v = crate::text::str_to_chars("struct ");
        append_str(&mut v, struct_name.as_str());
        append_str(&mut v, " {");
        self.put_line_chars(&v);
        proof {
            assert(self.buf() =~= old(self).buf() + struct_start_chunk(
                old(self).ind(),
                struct_name@,
            ));
        }
    }

    pub fn write_struct_end(&mut self)
        ensures
            final(self).buf() == old(self).buf() + struct_end_chunk(old(self).ind()),
            final(self).ind() == old(self).ind(),
    {
        self.put_line("};");
        self.put_newline();
        proof {
            assert(self.buf() =~= old(self).buf() + struct_end_chunk(old(self).ind()));
        }
    }

    pub fn write_struct_field(&mut self, field: &Field)
        requires
            ty_view(field.ty).wf(),
            old(self).ind() + 4 <= usize::MAX,
        ensures
            final(self).buf() == old(self).buf() + struct_field_chunk(
                old(self).ind(),
                crate::types::field_view(*field),
            ),
            final(self).ind() == old(self).ind(),
    {
        let field_type = field_type_to_cpp_type(&field.ty);
        let mut v = crate::text::str_to_chars(field_type.as_str());
        append_str(&mut v, " ");
        append_str(&mut v, field.name.as_str());
        append_str(&mut v, ";");
        self.push_indentation_level();
        self.put_line_chars(&v);
        self.pop_indentation_level();
        proof {
            assert(self.buf() =~= old(self).buf() + struct_field_chunk(
                old(self).ind(),
                crate::types::field_view(*field),
            ));
        }
    }
}


/// The conversion call for a numeric base type.
pub open spec fn numeric_conv_of(b: BaseV) -> Seq<char> {
    match b {
        BaseV::F32 => "std::strtof(arg_value, nullptr)"@,
        BaseV::F64 => "std::strtod(arg_value, nullptr)"@,
        _ => "std::strtoll(arg_value, nullptr, 10)"@,
    }
}

pub open spec fn is_numeric_base(b: BaseV) -> bool {
    b is I16 || b is U16 || b is I32 || b is U32 || b is I64 || b is U64 || b is F32 || b is F64
}

/// Converting and validating a numeric value: out-of-range values and
/// non-numeric values are fatal, with the literal `"0"` allowed even
/// though a failed conversion also yields zero.
pub open spec fn numeric_chunk(ind: nat, b: BaseV) -> Seq<char> {
    line_at(ind, "char* arg_value = args[0];"@) + line_at(
        ind,
        cpp_base_of(b) + " arg_res = static_cast<"@ + cpp_base_of(b) + ">("@ + numeric_conv_of(b)
            + ");"@,
    ) + "\n"@ + line_at(ind, "if (errno == ERANGE) {"@) + line_at(
        ind + 4,
        "printf(\"Value '%s' of option '%s' out of range for integer type\", arg_value, arg);"@,
    ) + line_at(ind + 4, "exit(1);"@) + line_at(ind, "}"@) + line_at(
        ind,
        "if (arg_res == 0 && strcmp(arg_value, \"0\") != 0) {"@,
    ) + line_at(
        ind + 4,
        "printf(\"Value '%s' of option '%s' is not a valid integer\", arg_value, arg);"@,
    ) + line_at(ind + 4, "exit(1);"@) + line_at(ind, "}"@)
}

/// Advancing to the value of an option and failing if none is there;
/// for non-string values a token that is itself a known option also
/// counts as missing.
pub open spec fn value_preamble_chunk(ind: nat, sname: Seq<char>, is_string: bool) -> Seq<char> {
    line_at(ind, "++args;"@) + line_at(ind, "++i;"@) + spaces(ind) + "if (i == argc"@ + (
    if is_string {
        ") {"@ + "\n"@
    } else {
        " || "@ + sname + "::is_option(args[0])) {"@ + "\n"@
    }) + line_at(
        ind + 4,
        "printf(\"Expected value for option '%s' but no value was provided\", arg);"@,
    ) + line_at(ind + 4, "exit(1);"@) + line_at(ind, "}"@)
}

/// Parsing one value of the given type into `arg_res`. `Vec` and
/// `Optional` wrappers delegate wholly to their base type, which emits
/// the advance-and-check preamble itself, so exactly one token is
/// consumed per value; a boolean base consumes none.
pub open spec fn parse_value_chunk(ind: nat, sname: Seq<char>, t: TyV) -> Seq<char>
    decreases (match t {
        TyV::Base(_) => 0int,
        _ => 1int,
    }),
{
    let pre = match t {
        TyV::Vec(_) => Seq::<char>::empty(),
        TyV::Optional(_) => Seq::<char>::empty(),
        TyV::Base(BaseV::Bool) => Seq::<char>::empty(),
        _ => value_preamble_chunk(ind, sname, t == TyV::Base(BaseV::String)),
    };
    pre + (match t {
        TyV::Base(b) => match b {
            BaseV::String => line_at(ind, "std::string arg_res = args[0];"@),
            BaseV::Bool => line_at(ind, "bool arg_res = true;"@),
            BaseV::Struct(n) => line_at(ind, n + " arg_res = "@ + n + "::parse(argc - i, args);"@),
            BaseV::Nested => Seq::<char>::empty(),
            _ => numeric_chunk(ind, b),
        },
        TyV::Vec(b) => parse_value_chunk(ind, sname, TyV::Base(b)),
        TyV::Optional(b) => parse_value_chunk(ind, sname, TyV::Base(b)),
    })
}

impl CppSourceBuilder {
    #[verifier::rlimit(100)]
    #[verifier::spinoff_prover]
    pub fn write_parse_numeric_field(&mut self, field_type: &FieldType)
        requires
            !(*field_type is Vec),
            !(*field_type is Optional),
            is_numeric_base(base_view(*field_type)),
            old(self).ind() + 4 <= usize::MAX,
        ensures
            final(self).buf() == old(self).buf() + numeric_chunk(
                old(self).ind(),
                base_view(*field_type),
            ),
            final(self).ind() == old(self).ind(),
    {
        let cpp_type = cpp_base_type(field_type);
        let conversion_function: &str = match field_type {
            FieldType::F32 => "std::strtof(arg_value, nullptr)",
            FieldType::F64 => "std::strtod(arg_value, nullptr)",
            _ => "std::strtoll(arg_value, nullptr, 10)",
        };
        self.put_line("char* arg_value = args[0];");
        let mut v = crate::text::str_to_chars(cpp_type.as_str());
        append_str(&mut v, " arg_res = static_cast<");
        append_str(&mut v, cpp_type.as_str());
        append_str(&mut v, ">(");
        append_str(&mut v, conversion_function);
        append_str(&mut v, ");");
        self.put_line_chars(&v);
        self.put_newline();
        self.put_line("if (errno == ERANGE) {");
        self.push_indentation_level();
        self.put_line(
            "printf(\"Value '%s' of option '%s' out of range for integer type\", arg_value, arg);",
        );
        self.put_line("exit(1);");
        self.pop_indentation_level();
        self.put_line("}");
        self.put_line("if (arg_res == 0 && strcmp(arg_value, \"0\") != 0) {");
        self.push_indentation_level();
        self.put_line(
            "printf(\"Value '%s' of option '%s' is not a valid integer\", arg_value, arg);",
        );
        self.put_line("exit(1);");
        self.pop_indentation_level();
        self.put_line("}");
        proof {
            assert(self.buf() =~= old(self).buf() + numeric_chunk(
                old(self).ind(),
                base_view(*field_type),
            ));
        }
    }

    fn write_parse_value_option_preamble(&mut self, struct_name: &String, is_string: bool)
        requires
            old(self).ind() + 4 <= usize::MAX,
        ensures
            final(self).buf() == old(self).buf() + value_preamble_chunk(
                old(self).ind(),
                struct_name@,
                is_string,
            ),
            final(self).ind() == old(self).ind(),
    {
        self.put_line("++args;");
        self.put_line("++i;");
        self.put_text("if (i == argc");
        let indentation_level = self.get_indentation_level();
        self.set_indentation_level(0);
        if is_string {
            self.put_line(") {");
        } else {
            let mut v = crate::text::str_to_chars(" || ");
            append_str(&mut v, struct_name.as_str());
            append_str(&mut v, "::is_option(args[0])) {");
            self.put_line_chars(&v);
        }
        self.set_indentation_level(indentation_level);
        self.push_indentation_level();
        self.put_line("printf(\"Expected value for option '%s' but no value was provided\", arg);");
        self.put_line("exit(1);");
        self.pop_indentation_level();
        self.put_line("}");
        proof {
            assert(spaces(0nat) =~= Seq::<char>::empty());
            assert(self.buf() =~= old(self).buf() + value_preamble_chunk(
                old(self).ind(),
                struct_name@,
                is_string,
            ));
        }
    }

    pub fn write_parse_field_type(&mut self, struct_name: &String, field_type: &FieldType)
        requires
            ty_view(*field_type).wf(),
            old(self).ind() + 4 <= usize::MAX,
        ensures
            final(self).buf() == old(self).buf() + parse_value_chunk(
                old(self).ind(),
                struct_name@,
                ty_view(*field_type),
            ),
            final(self).ind() == old(self).ind(),
    {
        match field_type {
            FieldType::Vec(_) => {},
            FieldType::Optional(_) => {},
            FieldType::Bool => {},
            _ => {
                let is_string = matches!(field_type, FieldType::String);
                self.write_parse_value_option_preamble(struct_name, is_string);
            },
        }
        match field_type {
            FieldType::String => {
                self.put_line("std::string arg_res = args[0];");
            },
            FieldType::Bool => {
                self.put_line("bool arg_res = true;");
            },
            FieldType::Struct(n) => {
                let mut v = crate::text::str_to_chars(n.as_str());
                append_str(&mut v, " arg_res = ");
                append_str(&mut v, n.as_str());
                append_str(&mut v, "::parse(argc - i, args);");
                self.put_line_chars(&v);
            },
            FieldType::Vec(inner) => {
                self.write_parse_field_type_base(struct_name, inner);
            },
            FieldType::Optional(inner) => {
                self.write_parse_field_type_base(struct_name, inner);
            },
            _ => {
                self.write_parse_numeric_field(field_type);
            },
        }
        proof {
            assert(self.buf() =~= old(self).buf() + parse_value_chunk(
                old(self).ind(),
                struct_name@,
                ty_view(*field_type),
            ));
        }
    }

    /// Parsing one value of an unwrapped type, for the inside of a
    /// `Vec` or `Optional` field.
    fn write_parse_field_type_base(&mut self, struct_name: &String, field_type: &FieldType)
        requires
            !(*field_type is Vec),
            !(*field_type is Optional),
            old(self).ind() + 4 <= usize::MAX,
        ensures
            final(self).buf() == old(self).buf() + parse_value_chunk(
                old(self).ind(),
                struct_name@,
                TyV::Base(base_view(*field_type)),
            ),
            final(self).ind() == old(self).ind(),
    {
        match field_type {
            FieldType::Bool => {},
            _ => {
                let is_string = matches!(field_type, FieldType::String);
                self.write_parse_value_option_preamble(struct_name, is_string);
            },
        }
        match field_type {
            FieldType::String => {
                self.put_line("std::string arg_res = args[0];");
            },
            FieldType::Bool => {
                self.put_line("bool arg_res = true;");
            },
            FieldType::Struct(n) => {
                let mut v = crate::text::str_to_chars(n.as_str());
                append_str(&mut v, " arg_res = ");
                append_str(&mut v, n.as_str());
                append_str(&mut v, "::parse(argc - i, args);");
                self.put_line_chars(&v);
            },
            FieldType::Vec(_) => {
                proof {
                    assert(false);
                }
            },
            FieldType::Optional(_) => {
                proof {
                    assert(false);
                }
            },
            _ => {
                self.write_parse_numeric_field(field_type);
            },
        }
        proof {
            assert(self.buf() =~= old(self).buf() + parse_value_chunk(
                old(self).ind(),
                struct_name@,
                TyV::Base(base_view(*field_type)),
            ));
        }
    }
}



// ---------------------------------------------------------------------------
// Text helpers: uppercase placeholders and decimal numbers.
// ---------------------------------------------------------------------------

/// ASCII lowercase letters raised to uppercase; everything else kept.
pub open spec fn upper_char(c: char) -> char {
    if c == 'a' { 'A' } else if c == 'b' { 'B' } else if c == 'c' { 'C' } else if c == 'd' { 'D' }
    else if c == 'e' { 'E' } else if c == 'f' { 'F' } else if c == 'g' { 'G' }
    else if c == 'h' { 'H' } else if c == 'i' { 'I' } else if c == 'j' { 'J' }
    else if c == 'k' { 'K' } else if c == 'l' { 'L' } else if c == 'm' { 'M' }
    else if c == 'n' { 'N' } else if c == 'o' { 'O' } else if c == 'p' { 'P' }
    else if c == 'q' { 'Q' } else if c == 'r' { 'R' } else if c == 's' { 'S' }
    else if c == 't' { 'T' } else if c == 'u' { 'U' } else if c == 'v' { 'V' }
    else if c == 'w' { 'W' } else if c == 'x' { 'X' } else if c == 'y' { 'Y' }
    else if c == 'z' { 'Z' } else { c }
}

pub open spec fn upper(s: Seq<char>) -> Seq<char> {
    s.map_values(|c: char| upper_char(c))
}

fn upper_char_exec(c: char) -> (r: char)
    ensures
        r == upper_char(c),
{
    if c == 'a' { 'A' } else if c == 'b' { 'B' } else if c == 'c' { 'C' } else if c == 'd' { 'D' }
    else if c == 'e' { 'E' } else if c == 'f' { 'F' } else if c == 'g' { 'G' }
    else if c == 'h' { 'H' } else if c == 'i' { 'I' } else if c == 'j' { 'J' }
    else if c == 'k' { 'K' } else if c == 'l' { 'L' } else if c == 'm' { 'M' }
    else if c == 'n' { 'N' } else if c == 'o' { 'O' } else if c == 'p' { 'P' }
    else if c == 'q' { 'Q' } else if c == 'r' { 'R' } else if c == 's' { 'S' }
    else if c == 't' { 'T' } else if c == 'u' { 'U' } else if c == 'v' { 'V' }
    else if c == 'w' { 'W' } else if c == 'x' { 'X' } else if c == 'y' { 'Y' }
    else if c == 'z' { 'Z' } else { c }
}

/// The string in uppercase.
fn upper_chars(s: &String) -> (r: Vec<char>)
    ensures
        r@ == upper(s@),
{
    let st = s.as_str();
    let n = vstd::string::StrSliceExecFns::unicode_len(st);
    let mut v: Vec<char> = Vec::new();
    let mut i: usize = 0;
    while i < n
        invariant
            i <= n,
            n == st@.len(),
            st@ == s@,
            v@ =~= upper(s@.subrange(0, i as int)),
        decreases n - i,
    {
        let c = vstd::string::StrSliceExecFns::get_char(st, i);
        v.push(upper_char_exec(c));
        i += 1;
        proof {
            assert(v@ =~= upper(s@.subrange(0, i as int)));
        }
    }
    proof {
        assert(s@.subrange(0, n as int) =~= s@);
    }
    v
}

pub open spec fn dec_digit(n: nat) -> char {
    if n == 0 { '0' } else if n == 1 { '1' } else if n == 2 { '2' } else if n == 3 { '3' }
    else if n == 4 { '4' } else if n == 5 { '5' } else if n == 6 { '6' }
    else if n == 7 { '7' } else if n == 8 { '8' } else { '9' }
}

/// The decimal digits of `n`.
pub open spec fn dec_nat(n: nat) -> Seq<char>
    decreases n,
{
    if n < 10 {
        seq![dec_digit(n)]
    } else {
        dec_nat(n / 10).push(dec_digit(n % 10))
    }
}

fn dec_rec(n: usize, out: &mut Vec<char>)
    ensures
        final(out)@ == old(out)@ + dec_nat(n as nat),
    decreases n,
{
    if n >= 10 {
        dec_rec(n / 10, out);
    }
    let d = n % 10;
    let c: char = if d == 0 { '0' } else if d == 1 { '1' } else if d == 2 { '2' }
    else if d == 3 { '3' } else if d == 4 { '4' } else if d == 5 { '5' }
    else if d == 6 { '6' } else if d == 7 { '7' } else if d == 8 { '8' } else { '9' };
    out.push(c);
    proof {
        if n < 10 {
            assert(out@ =~= old(out)@ + dec_nat(n as nat));
        } else {
            assert(out@ =~= old(out)@ + dec_nat(n as nat));
        }
    }
}

/// Appends the decimal digits of `n`.
fn append_dec(n: usize, out: &mut Vec<char>)
    ensures
        final(out)@ == old(out)@ + dec_nat(n as nat),
{
    dec_rec(n, out);
}

// ---------------------------------------------------------------------------
// The help method.
// ---------------------------------------------------------------------------

/// The help line of one visible field: its short and long forms,
/// comma-joined when both are there, and an uppercase value
/// placeholder for non-boolean fields.
pub open spec fn help_field_line(ind: nat, f: FieldV) -> Seq<char> {
    spaces(ind) + "\"    "@ + (match f.short_value() {
        Some(s) => "-"@ + s,
        None => Seq::<char>::empty(),
    }) + (match f.long_value() {
        Some(l) => (if f.short_value() is Some {
            ", "@
        } else {
            Seq::<char>::empty()
        }) + "--"@ + l,
        None => Seq::<char>::empty(),
    }) + (if !(f.ty == TyV::Base(BaseV::Bool)) {
        " <"@ + upper(f.name) + ">"@
    } else {
        Seq::<char>::empty()
    }) + "\\n\""@ + "\n"@
}

pub open spec fn help_fields_chunk(ind: nat, fields: Seq<FieldV>, i: nat) -> Seq<char>
    decreases fields.len() - i,
{
    if i >= fields.len() {
        Seq::empty()
    } else {
        help_field_line(ind, fields[i as int]) + help_fields_chunk(ind, fields, i + 1)
    }
}

/// The whole help method of a struct: the usage banner, the implicit
/// help line, and one line per visible field.
pub open spec fn help_chunk(ind: nat, table: Seq<StructV>, s: StructV) -> Seq<char> {
    "\n"@ + line_at(ind + 4, "static void help() {"@) + line_at(
        ind + 8,
        "printf(\"Usage: "@ + s.name + " [OPTIONS]\\n\""@,
    ) + line_at(ind + 8, "\"\\n\""@) + line_at(ind + 8, "\"Options:\\n\""@) + line_at(
        ind + 8,
        "\"    -h, --help\\n\""@,
    ) + help_fields_chunk(ind + 8, visible_fields(table, s.fields), 0) + line_at(ind + 4, ");"@)
        + line_at(ind + 4, "exit(0);"@) + line_at(ind, "}"@)
}

impl CppSourceBuilder {
    /// The indentation after the help method: one level out, floored.
    pub open spec fn popped(ind: nat) -> nat {
        if ind >= 4 {
            (ind - 4) as nat
        } else {
            ind
        }
    }

    #[verifier::rlimit(100)]
    fn write_help_field_line(&mut self, field: &Field)
        ensures
            final(self).buf() == old(self).buf() + help_field_line(
                old(self).ind(),
                field_view(*field),
            ),
            final(self).ind() == old(self).ind(),
    {
        self.put_text("\"    ");
        let saved = self.get_indentation_level();
        self.set_indentation_level(0);
        let short = field.short_value();
        let is_short = match &short {
            Some(s) => {
                let mut v = crate::text::str_to_chars("-");
                append_str(&mut v, s.as_str());
                self.put_text_chars(&v);
                true
            },
            None => false,
        };
        match field.long_value() {
            Some(l) => {
                if is_short {
                    self.put_text(", ");
                }
                let mut v = crate::text::str_to_chars("--");
                append_str(&mut v, l.as_str());
                self.put_text_chars(&v);
            },
            None => {},
        }
        if !matches!(field.ty, FieldType::Bool) {
            let mut v = crate::text::str_to_chars(" <");
            let up = upper_chars(&field.name);
            let mut k: usize = 0;
            while k < up.len()
                invariant
                    k <= up@.len(),
                    v@ == " <"@ + up@.subrange(0, k as int),
                decreases up@.len() - k,
            {
                v.push(up[k]);
                k += 1;
                proof {
                    assert(v@ =~= " <"@ + up@.subrange(0, k as int));
                }
            }
            proof {
                assert(up@.subrange(0, up@.len() as int) =~= up@);
            }
            append_str(&mut v, ">");
            self.put_text_chars(&v);
        }
        self.put_line("\\n\"");
        self.set_indentation_level(saved);
        proof {
            assert(spaces(0nat) =~= Seq::<char>::empty());
            assert(self.buf() =~= old(self).buf() + help_field_line(
                old(self).ind(),
                field_view(*field),
            ));
        }
    }

    /// The help method: a usage banner with the struct's name, the
    /// implicit `-h, --help` line, then one line per visible field,
    /// flatten resolved recursively; the generated method exits with
    /// success after printing.
    #[verifier::loop_isolation(false)]
    pub fn write_struct_help_method(&mut self, strukt: &Struct, spec_metadata: &SpecMetadata)
        requires
            spec_metadata.structs@.len() < usize::MAX,
            flatten_resolvable(
                structs_view(spec_metadata.structs@),
                fields_view(strukt.fields@),
            ),
            old(self).ind() + 8 <= usize::MAX,
        ensures
            final(self).buf() == old(self).buf() + help_chunk(
                old(self).ind(),
                structs_view(spec_metadata.structs@),
                struct_view_of(*strukt),
            ),
            final(self).ind() == Self::popped(old(self).ind()),
    {
        let ghost table = structs_view(spec_metadata.structs@);
        let ghost sv = struct_view_of(*strukt);
        self.put_newline();
        self.push_indentation_level();
        self.put_line("static void help() {");
        self.push_indentation_level();
        let mut v = crate::text::str_to_chars("printf(\"Usage: ");
        append_str(&mut v, strukt.name.as_str());
        append_str(&mut v, " [OPTIONS]\\n\"");
        self.put_line_chars(&v);
        self.put_line("\"\\n\"");
        self.put_line("\"Options:\\n\"");
        self.put_line("\"    -h, --help\\n\"");
        let fields = strukt.get_fields(spec_metadata);
        let ghost vf = visible_fields(table, sv.fields);
        let mut i: usize = 0;
        proof {
            assert(fields_view(fields@) == vf);
        }
        while i < fields.len()
            invariant
                i <= fields@.len(),
                self.buf() == old(self).buf() + "\n"@ + line_at(
                    old(self).ind() + 4,
                    "static void help() {"@,
                ) + line_at(
                    old(self).ind() + 8,
                    "printf(\"Usage: "@ + sv.name + " [OPTIONS]\\n\""@,
                ) + line_at(old(self).ind() + 8, "\"\\n\""@) + line_at(
                    old(self).ind() + 8,
                    "\"Options:\\n\""@,
                ) + line_at(old(self).ind() + 8, "\"    -h, --help\\n\""@)
                    + help_fields_partial(old(self).ind() + 8, vf, i as nat),
                self.ind() == old(self).ind() + 8,
            decreases fields@.len() - i,
        {
            let ghost b0 = self.buf();
            self.write_help_field_line(&fields[i]);
            i += 1;
            proof {
                assert(field_view(fields@[i - 1]) == vf[i - 1]);
                assert(help_fields_partial(old(self).ind() + 8, vf, i as nat)
                    =~= help_fields_partial(old(self).ind() + 8, vf, (i - 1) as nat)
                    + help_field_line(old(self).ind() + 8, vf[i - 1]));
                assert(self.buf() =~= b0 + help_field_line(old(self).ind() + 8, vf[i - 1]));
            }
        }
        self.pop_indentation_level();
        self.put_line(");");
        self.put_line("exit(0);");
        self.pop_indentation_level();
        self.put_line("}");
        self.pop_indentation_level();
        proof {
            lemma_help_fields_partial_all(old(self).ind() + 8, vf);
            assert(self.buf() =~= old(self).buf() + help_chunk(old(self).ind(), table, sv));
        }
    }
}

/// The view of a struct.
pub open spec fn struct_view_of(s: Struct) -> StructV {
    crate::types::struct_view(s)
}

/// The first `i` help field lines.
pub open spec fn help_fields_partial(ind: nat, fields: Seq<FieldV>, i: nat) -> Seq<char>
    decreases i,
{
    if i == 0 {
        Seq::empty()
    } else {
        help_fields_partial(ind, fields, (i - 1) as nat) + help_field_line(
            ind,
            fields[i as int - 1],
        )
    }
}

/// Emitting the lines front to back and peeling them back to front
/// agree.
pub proof fn lemma_help_fields_partial_all(ind: nat, fields: Seq<FieldV>)
    ensures
        help_fields_partial(ind, fields, fields.len()) == help_fields_chunk(ind, fields, 0),
{
    lemma_help_fields_agree(ind, fields, 0);
}

proof fn lemma_help_fields_agree(ind: nat, fields: Seq<FieldV>, i: nat)
    requires
        i <= fields.len(),
    ensures
        help_fields_partial(ind, fields, i) + help_fields_chunk(ind, fields, i)
            == help_fields_partial(ind, fields, fields.len()),
        help_fields_partial(ind, fields, fields.len()) == help_fields_chunk(ind, fields, 0),
    decreases fields.len() - i,
{
    if i == fields.len() {
        assert(help_fields_chunk(ind, fields, i) =~= Seq::<char>::empty());
        assert(help_fields_partial(ind, fields, i) + Seq::<char>::empty()
            =~= help_fields_partial(ind, fields, i));
        lemma_help_fields_prefix(ind, fields, fields.len());
        assert(help_fields_partial(ind, fields, fields.len()) + help_fields_chunk(
            ind,
            fields,
            fields.len(),
        ) == help_fields_chunk(ind, fields, 0));
    } else {
        lemma_help_fields_agree(ind, fields, i + 1);
        assert(help_fields_partial(ind, fields, i + 1) =~= help_fields_partial(ind, fields, i)
            + help_field_line(ind, fields[i as int]));
        assert(help_fields_partial(ind, fields, i) + (help_field_line(ind, fields[i as int])
            + help_fields_chunk(ind, fields, i + 1)) =~= help_fields_partial(ind, fields, i + 1)
            + help_fields_chunk(ind, fields, i + 1));
    }
}

proof fn lemma_help_fields_prefix(ind: nat, fields: Seq<FieldV>, i: nat)
    requires
        i <= fields.len(),
    ensures
        help_fields_partial(ind, fields, i) + help_fields_chunk(ind, fields, i)
            == help_fields_chunk(ind, fields, 0),
    decreases i,
{
    if i == 0 {
        assert(Seq::<char>::empty() + help_fields_chunk(ind, fields, 0) =~= help_fields_chunk(
            ind,
            fields,
            0,
        ));
    } else {
        lemma_help_fields_prefix(ind, fields, (i - 1) as nat);
        assert(help_fields_chunk(ind, fields, (i - 1) as nat) == help_field_line(
            ind,
            fields[i as int - 1],
        ) + help_fields_chunk(ind, fields, i));
        assert(help_fields_partial(ind, fields, i) + help_fields_chunk(ind, fields, i)
            =~= help_fields_partial(ind, fields, (i - 1) as nat) + help_fields_chunk(
            ind,
            fields,
            (i - 1) as nat,
        ));
    }
}



// ---------------------------------------------------------------------------
// Concatenating per-field pieces.
// ---------------------------------------------------------------------------

/// The concatenation of `parts[i..]`.
pub open spec fn cat_from(parts: Seq<Seq<char>>, i: nat) -> Seq<char>
    decreases parts.len() - i,
{
    if i >= parts.len() {
        Seq::empty()
    } else {
        parts[i as int] + cat_from(parts, i + 1)
    }
}

/// The concatenation of `parts[..i]`.
pub open spec fn cat_to(parts: Seq<Seq<char>>, i: nat) -> Seq<char>
    decreases i,
{
    if i == 0 {
        Seq::empty()
    } else {
        cat_to(parts, (i - 1) as nat) + parts[i as int - 1]
    }
}

/// Concatenating front to back and back to front agree.
pub proof fn lemma_cat_agree(parts: Seq<Seq<char>>, i: nat)
    requires
        i <= parts.len(),
    ensures
        cat_to(parts, i) + cat_from(parts, i) == cat_from(parts, 0),
    decreases i,
{
    if i == 0 {
        assert(Seq::<char>::empty() + cat_from(parts, 0) =~= cat_from(parts, 0));
    } else {
        lemma_cat_agree(parts, (i - 1) as nat);
        assert(cat_from(parts, (i - 1) as nat) == parts[i as int - 1] + cat_from(parts, i));
        assert(cat_to(parts, i) + cat_from(parts, i) =~= cat_to(parts, (i - 1) as nat)
            + cat_from(parts, (i - 1) as nat));
    }
}

// ---------------------------------------------------------------------------
// The option-recognition predicate.
// ---------------------------------------------------------------------------

/// The `valid_options` entries a visible field contributes.
pub open spec fn is_option_field_lines(ind: nat, f: FieldV) -> Seq<char> {
    (match f.short_value() {
        Some(v) => line_at(ind, "\"-"@ + v + "\","@),
        None => Seq::<char>::empty(),
    }) + (match f.long_value() {
        Some(l) => line_at(ind, "\"--"@ + l + "\","@),
        None => Seq::<char>::empty(),
    })
}

/// How many spellings a visible field contributes.
pub open spec fn option_count_one(f: FieldV) -> nat {
    (if f.short_value() is Some {
        1nat
    } else {
        0nat
    }) + (if f.long_value() is Some {
        1nat
    } else {
        0nat
    })
}

pub open spec fn option_count_from(fields: Seq<FieldV>, i: nat) -> nat
    decreases fields.len() - i,
{
    if i >= fields.len() {
        0
    } else {
        option_count_one(fields[i as int]) + option_count_from(fields, i + 1)
    }
}

pub open spec fn option_count_to(fields: Seq<FieldV>, i: nat) -> nat
    decreases i,
{
    if i == 0 {
        0
    } else {
        option_count_to(fields, (i - 1) as nat) + option_count_one(fields[i as int - 1])
    }
}

pub proof fn lemma_option_count_agree(fields: Seq<FieldV>, i: nat)
    requires
        i <= fields.len(),
    ensures
        option_count_to(fields, i) + option_count_from(fields, i) == option_count_from(fields, 0),
        option_count_to(fields, i) <= 2 * i,
    decreases i,
{
    if i > 0 {
        lemma_option_count_agree(fields, (i - 1) as nat);
        assert(option_count_from(fields, (i - 1) as nat) == option_count_one(fields[i as int - 1])
            + option_count_from(fields, i));
    }
}

/// The lines a visible field contributes, as parts for concatenation.
pub open spec fn option_line_parts(ind: nat, fields: Seq<FieldV>) -> Seq<Seq<char>> {
    fields.map_values(|f: FieldV| is_option_field_lines(ind, f))
}

/// The whole option-recognition predicate of a struct: whether a token
/// is one of the struct's transitively flattened short or long
/// spellings.
pub open spec fn is_option_chunk(ind: nat, table: Seq<StructV>, s: StructV) -> Seq<char> {
    let vf = visible_fields(table, s.fields);
    "\n"@ + line_at(ind + 4, "static bool is_option(char* arg) {"@) + line_at(
        ind + 8,
        "static const char* valid_options[] = {"@,
    ) + cat_from(option_line_parts(ind + 12, vf), 0) + line_at(ind + 8, "};"@) + "\n"@ + line_at(
        ind + 8,
        "for (size_t i = 0; i != "@ + dec_nat(option_count_from(vf, 0)) + "; ++i) {"@,
    ) + line_at(ind + 12, "if (strcmp(arg, valid_options[i]) == 0) {"@) + line_at(
        ind + 16,
        "return true;"@,
    ) + line_at(ind + 12, "}"@) + line_at(ind + 8, "}"@) + "\n"@ + line_at(
        ind + 8,
        "return false;"@,
    ) + line_at(ind + 4, "}"@)
}

impl CppSourceBuilder {
    #[verifier::rlimit(100)]
    fn write_option_field_lines(&mut self, field: &Field) -> (count: usize)
        ensures
            final(self).buf() == old(self).buf() + is_option_field_lines(
                old(self).ind(),
                field_view(*field),
            ),
            final(self).ind() == old(self).ind(),
            count == option_count_one(field_view(*field)),
            count <= 2,
    {
        let mut count: usize = 0;
        match field.short_value() {
            Some(v) => {
                let mut t = crate::text::str_to_chars("\"-");
                append_str(&mut t, v.as_str());
                append_str(&mut t, "\",");
                self.put_line_chars(&t);
                count += 1;
            },
            None => {},
        }
        match field.long_value() {
            Some(l) => {
                let mut t = crate::text::str_to_chars("\"--");
                append_str(&mut t, l.as_str());
                append_str(&mut t, "\",");
                self.put_line_chars(&t);
                count += 1;
            },
            None => {},
        }
        proof {
            assert(self.buf() =~= old(self).buf() + is_option_field_lines(
                old(self).ind(),
                field_view(*field),
            ));
        }
        count
    }

    /// The option-recognition predicate: returns whether a token is
    /// one of this struct's (transitively flattened) known short or
    /// long option spellings.
    #[verifier::loop_isolation(false)]
    #[verifier::rlimit(100)]
    pub fn write_is_option_method(&mut self, strukt: &Struct, spec_metadata: &SpecMetadata)
        requires
            spec_metadata.structs@.len() < usize::MAX,
            flatten_resolvable(
                structs_view(spec_metadata.structs@),
                fields_view(strukt.fields@),
            ),
            2 * visible_fields(
                structs_view(spec_metadata.structs@),
                fields_view(strukt.fields@),
            ).len() <= usize::MAX,
            old(self).ind() + 16 <= usize::MAX,
        ensures
            final(self).buf() == old(self).buf() + is_option_chunk(
                old(self).ind(),
                structs_view(spec_metadata.structs@),
                struct_view_of(*strukt),
            ),
            final(self).ind() == old(self).ind(),
    {
        let ghost table = structs_view(spec_metadata.structs@);
        let ghost sv = struct_view_of(*strukt);
        let ghost vf = visible_fields(table, sv.fields);
        let ghost parts = option_line_parts(old(self).ind() + 12, vf);
        self.put_newline();
        self.push_indentation_level();
        self.put_line("static bool is_option(char* arg) {");
        self.push_indentation_level();
        self.put_line("static const char* valid_options[] = {");
        self.push_indentation_level();
        let fields = strukt.get_fields(spec_metadata);
        proof {
            assert(fields_view(fields@) == vf);
        }
        let ghost mark = self.buf();
        let mut num_fields: usize = 0;
        let mut i: usize = 0;
        while i < fields.len()
            invariant
                i <= fields@.len(),
                self.buf() == mark + cat_to(parts, i as nat),
                self.ind() == old(self).ind() + 12,
                num_fields == option_count_to(vf, i as nat),
                num_fields <= 2 * i,
            decreases fields@.len() - i,
        {
            let ghost b0 = self.buf();
            proof {
                lemma_option_count_agree(vf, i as nat + 1);
                assert(field_view(fields@[i as int]) == vf[i as int]);
            }
            let c = self.write_option_field_lines(&fields[i]);
            num_fields += c;
            i += 1;
            proof {
                assert(parts[i - 1] == is_option_field_lines(old(self).ind() + 12, vf[i - 1]));
                assert(cat_to(parts, i as nat) =~= cat_to(parts, (i - 1) as nat) + parts[i - 1]);
                assert(self.buf() =~= mark + cat_to(parts, i as nat));
            }
        }
        proof {
            lemma_cat_agree(parts, parts.len() as nat);
            lemma_option_count_agree(vf, vf.len() as nat);
            assert(option_count_from(vf, vf.len() as nat) == 0);
            assert(num_fields == option_count_from(vf, 0));
        }
        self.pop_indentation_level();
        self.put_line("};");
        self.put_newline();
        let mut t = crate::text::str_to_chars("for (size_t i = 0; i != ");
        append_dec(num_fields, &mut t);
        append_str(&mut t, "; ++i) {");
        self.put_line_chars(&t);
        self.push_indentation_level();
        self.put_line("if (strcmp(arg, valid_options[i]) == 0) {");
        self.push_indentation_level();
        self.put_line("return true;");
        self.pop_indentation_level();
        self.put_line("}");
        self.pop_indentation_level();
        self.put_line("}");
        self.put_newline();
        self.put_line("return false;");
        self.pop_indentation_level();
        self.put_line("}");
        self.pop_indentation_level();
        proof {
            assert(self.buf() =~= old(self).buf() + is_option_chunk(old(self).ind(), table, sv));
        }
    }
}

// ---------------------------------------------------------------------------
// The debug-printing method.
// ---------------------------------------------------------------------------

/// The statement printing one field's current value.
pub open spec fn print_stmt(f: FieldV) -> Seq<char> {
    let n = f.name;
    match f.ty {
        TyV::Base(b) => match b {
            BaseV::String => "printf(\"\\t"@ + n + ": %s\\n\", this->"@ + n + ".c_str());"@,
            BaseV::F32 => "printf(\"\\t"@ + n + ": %f\\n\", this->"@ + n + ");"@,
            BaseV::F64 => "printf(\"\\t"@ + n + ": %f\\n\", this->"@ + n + ");"@,
            BaseV::Bool => "printf(\"\\t"@ + n + ": %s\\n\", this->"@ + n
                + " ? \"true\" : \"false\");"@,
            BaseV::Struct(_) => "this->"@ + n + ".print_debug();"@,
            BaseV::Nested => Seq::<char>::empty(),
            _ => "printf(\"\\t"@ + n + ": %d\\n\", this->"@ + n + ");"@,
        },
        TyV::Vec(b) => match b {
            BaseV::String => "printf(\"\\t%s,\\n\", this->"@ + n + "[i].c_str());"@,
            BaseV::F32 => "printf(\"\\t%f,\\n\", this->"@ + n + "[i]);"@,
            BaseV::F64 => "printf(\"\\t%f,\\n\", this->"@ + n + "[i]);"@,
            BaseV::Bool => "printf(\"\\t%s,\\n\", this->"@ + n
                + "[i] ? \"true\" : \"false\");"@,
            BaseV::Struct(_) => "this->"@ + n + "[i].print_debug();"@,
            BaseV::Nested => Seq::<char>::empty(),
            _ => "printf(\"\\t%d,\\n\", this->"@ + n + "[i]);"@,
        },
        TyV::Optional(b) => match b {
            BaseV::String => "printf(\"\\t%s,\\n\", this->"@ + n + "[i].c_str());"@,
            BaseV::F32 => "printf(\"\\t%f,\\n\", this->"@ + n + "[i].value());"@,
            BaseV::F64 => "printf(\"\\t%f,\\n\", this->"@ + n + "[i].value());"@,
            BaseV::Bool => "printf(\"\\t%s,\\n\", this->"@ + n
                + "[i].value() ? \"true\" : \"false\");"@,
            BaseV::Struct(_) => "this->"@ + n + "[i].value().print_debug();"@,
            BaseV::Nested => Seq::<char>::empty(),
            _ => "printf(\"\\t%d,\\n\", this->"@ + n + "[i].value());"@,
        },
    }
}

/// The lines printing one field: `Vec` fields iterate and print each
/// element, everything else prints in place.
pub open spec fn debug_field_chunk(ind: nat, f: FieldV) -> Seq<char> {
    if f.ty is Vec {
        line_at(ind, "printf(\"\\t"@ + f.name + ": [\\n\");"@) + line_at(
            ind,
            "for (size_t i = 0; i != this->"@ + f.name + ".size(); ++i) {"@,
        ) + line_at(ind + 4, print_stmt(f)) + line_at(ind, "}"@) + line_at(
            ind,
            "printf(\"\\t]\\n\");"@,
        )
    } else {
        line_at(ind, print_stmt(f))
    }
}

pub open spec fn debug_parts(ind: nat, fields: Seq<FieldV>) -> Seq<Seq<char>> {
    fields.map_values(|f: FieldV| debug_field_chunk(ind, f))
}

/// The whole debug-printing method of a struct.
pub open spec fn debug_chunk(ind: nat, s: StructV) -> Seq<char> {
    "\n"@ + line_at(ind + 4, "void print_debug() {"@) + line_at(
        ind + 8,
        "printf(\""@ + s.name + " {\\n\");"@,
    ) + cat_from(debug_parts(ind + 8, s.fields), 0) + line_at(ind + 8, "printf(\"}\\n\");"@)
        + line_at(ind + 4, "}"@)
}

impl CppSourceBuilder {
    /// The statement printing one field's value, as text.
    fn print_statement_text(&self, field: &Field) -> (r: Vec<char>)
        ensures
            r@ == print_stmt(field_view(*field)),
    {
        let n = field.name.as_str();
        match &field.ty {
            FieldType::String => {
                let mut t = crate::text::str_to_chars("printf(\"\\t");
                append_str(&mut t, n);
                append_str(&mut t, ": %s\\n\", this->");
                append_str(&mut t, n);
                append_str(&mut t, ".c_str());");
                t
            },
            FieldType::F32 | FieldType::F64 => {
                let mut t = crate::text::str_to_chars("printf(\"\\t");
                append_str(&mut t, n);
                append_str(&mut t, ": %f\\n\", this->");
                append_str(&mut t, n);
                append_str(&mut t, ");");
                t
            },
            FieldType::Bool => {
                let mut t = crate::text::str_to_chars("printf(\"\\t");
                append_str(&mut t, n);
                append_str(&mut t, ": %s\\n\", this->");
                append_str(&mut t, n);
                append_str(&mut t, " ? \"true\" : \"false\");");
                t
            },
            FieldType::Struct(_) => {
                let mut t = crate::text::str_to_chars("this->");
                append_str(&mut t, n);
                append_str(&mut t, ".print_debug();");
                t
            },
            FieldType::Vec(inner) => {
                match &**inner {
                    FieldType::String => {
                        let mut t = crate::text::str_to_chars("printf(\"\\t%s,\\n\", this->");
                        append_str(&mut t, n);
                        append_str(&mut t, "[i].c_str());");
                        t
                    },
                    FieldType::F32 | FieldType::F64 => {
                        let mut t = crate::text::str_to_chars("printf(\"\\t%f,\\n\", this->");
                        append_str(&mut t, n);
                        append_str(&mut t, "[i]);");
                        t
                    },
                    FieldType::Bool => {
                        let mut t = crate::text::str_to_chars("printf(\"\\t%s,\\n\", this->");
                        append_str(&mut t, n);
                        append_str(&mut t, "[i] ? \"true\" : \"false\");");
                        t
                    },
                    FieldType::Struct(_) => {
                        let mut t = crate::text::str_to_chars("this->");
                        append_str(&mut t, n);
                        append_str(&mut t, "[i].print_debug();");
                        t
                    },
                    FieldType::Vec(_) | FieldType::Optional(_) => {
                        let t: Vec<char> = Vec::new();
                        proof {
                            assert(t@ =~= Seq::<char>::empty());
                        }
                        t
                    },
                    _ => {
                        let mut t = crate::text::str_to_chars("printf(\"\\t%d,\\n\", this->");
                        append_str(&mut t, n);
                        append_str(&mut t, "[i]);");
                        t
                    },
                }
            },
            FieldType::Optional(inner) => {
                match &**inner {
                    FieldType::String => {
                        let mut t = crate::text::str_to_chars("printf(\"\\t%s,\\n\", this->");
                        append_str(&mut t, n);
                        append_str(&mut t, "[i].c_str());");
                        t
                    },
                    FieldType::F32 | FieldType::F64 => {
                        let mut t = crate::text::str_to_chars("printf(\"\\t%f,\\n\", this->");
                        append_str(&mut t, n);
                        append_str(&mut t, "[i].value());");
                        t
                    },
                    FieldType::Bool => {
                        let mut t = crate::text::str_to_chars("printf(\"\\t%s,\\n\", this->");
                        append_str(&mut t, n);
                        append_str(&mut t, "[i].value() ? \"true\" : \"false\");");
                        t
                    },
                    FieldType::Struct(_) => {
                        let mut t = crate::text::str_to_chars("this->");
                        append_str(&mut t, n);
                        append_str(&mut t, "[i].value().print_debug();");
                        t
                    },
                    FieldType::Vec(_) | FieldType::Optional(_) => {
                        let t: Vec<char> = Vec::new();
                        proof {
                            assert(t@ =~= Seq::<char>::empty());
                        }
                        t
                    },
                    _ => {
                        let mut t = crate::text::str_to_chars("printf(\"\\t%d,\\n\", this->");
                        append_str(&mut t, n);
                        append_str(&mut t, "[i].value());");
                        t
                    },
                }
            },
            _ => {
                let mut t = crate::text::str_to_chars("printf(\"\\t");
                append_str(&mut t, n);
                append_str(&mut t, ": %d\\n\", this->");
                append_str(&mut t, n);
                append_str(&mut t, ");");
                t
            },
        }
    }

    #[verifier::rlimit(100)]
    fn write_debug_field(&mut self, field: &Field)
        requires
            old(self).ind() + 4 <= usize::MAX,
        ensures
            final(self).buf() == old(self).buf() + debug_field_chunk(
                old(self).ind(),
                field_view(*field),
            ),
            final(self).ind() == old(self).ind(),
    {
        let stmt = self.print_statement_text(field);
        if matches!(field.ty, FieldType::Vec(_)) {
            let mut t = crate::text::str_to_chars("printf(\"\\t");
            append_str(&mut t, field.name.as_str());
            append_str(&mut t, ": [\\n\");");
            self.put_line_chars(&t);
            let mut t2 = crate::text::str_to_chars("for (size_t i = 0; i != this->");
            append_str(&mut t2, field.name.as_str());
            append_str(&mut t2, ".size(); ++i) {");
            self.put_line_chars(&t2);
            self.push_indentation_level();
            self.put_line_chars(&stmt);
            self.pop_indentation_level();
            self.put_line("}");
            self.put_line("printf(\"\\t]\\n\");");
        } else {
            self.put_line_chars(&stmt);
        }
        proof {
            assert(self.buf() =~= old(self).buf() + debug_field_chunk(
                old(self).ind(),
                field_view(*field),
            ));
        }
    }

    /// The debug-printing method: every field's current value, with
    /// `Vec` fields printed element by element.
    #[verifier::loop_isolation(false)]
    pub fn write_debug_print_method(&mut self, strukt: &Struct)
        requires
            old(self).ind() + 12 <= usize::MAX,
        ensures
            final(self).buf() == old(self).buf() + debug_chunk(
                old(self).ind(),
                struct_view_of(*strukt),
            ),
            final(self).ind() == old(self).ind(),
    {
        let ghost sv = struct_view_of(*strukt);
        let ghost parts = debug_parts(old(self).ind() + 8, sv.fields);
        self.put_newline();
        self.push_indentation_level();
        self.put_line("void print_debug() {");
        self.push_indentation_level();
        let mut t = crate::text::str_to_chars("printf(\"");
        append_str(&mut t, strukt.name.as_str());
        append_str(&mut t, " {\\n\");");
        self.put_line_chars(&t);
        let ghost mark = self.buf();
        let mut i: usize = 0;
        while i < strukt.fields.len()
            invariant
                i <= strukt.fields@.len(),
                self.buf() == mark + cat_to(parts, i as nat),
                self.ind() == old(self).ind() + 8,
            decreases strukt.fields@.len() - i,
        {
            proof {
                assert(field_view(strukt.fields@[i as int]) == sv.fields[i as int]);
            }
            self.write_debug_field(&strukt.fields[i]);
            i += 1;
            proof {
                assert(parts[i - 1] == debug_field_chunk(old(self).ind() + 8, sv.fields[i - 1]));
                assert(cat_to(parts, i as nat) =~= cat_to(parts, (i - 1) as nat) + parts[i - 1]);
                assert(self.buf() =~= mark + cat_to(parts, i as nat));
            }
        }
        proof {
            lemma_cat_agree(parts, parts.len() as nat);
        }
        self.put_line("printf(\"}\\n\");");
        self.pop_indentation_level();
        self.put_line("}");
        self.pop_indentation_level();
        proof {
            assert(self.buf() =~= old(self).buf() + debug_chunk(old(self).ind(), sv));
        }
    }
}



// ---------------------------------------------------------------------------
// The parse procedure: matcher branches per field, flatten-recursive.
// ---------------------------------------------------------------------------

/// Parts joined by a separator.
pub open spec fn join_with(parts: Seq<Seq<char>>, sep: Seq<char>) -> Seq<char>
    decreases parts.len(),
{
    if parts.len() == 0 {
        Seq::empty()
    } else if parts.len() == 1 {
        parts[0]
    } else {
        parts[0] + sep + join_with(parts.drop_first(), sep)
    }
}

/// The comparison deciding whether `arg` is one spelling.
pub open spec fn strcmp_of(m: Seq<char>) -> Seq<char> {
    "strcmp(arg, \""@ + m + "\") == 0"@
}

/// The first index filed under the given name, if any.
pub open spec fn assoc_nat(m: Seq<(Seq<char>, nat)>, k: Seq<char>) -> Option<nat>
    decreases m.len(),
{
    if m.len() == 0 {
        None
    } else if m[0].0 == k {
        Some(m[0].1)
    } else {
        assoc_nat(m.drop_first(), k)
    }
}

pub open spec fn parents_view(s: Seq<String>) -> Seq<Seq<char>> {
    s.map_values(|x: String| x@)
}

pub open spec fn mfti_view(m: Seq<(String, usize)>) -> Seq<(Seq<char>, nat)> {
    m.map_values(|p: (String, usize)| (p.0@, p.1 as nat))
}

pub open spec fn opt_or_empty(v: Option<Seq<char>>) -> Seq<char> {
    match v {
        Some(s) => s,
        None => Seq::empty(),
    }
}

/// What the parse procedure needs of every field it emits a branch
/// for: a well-formed type, no struct-level attribute kinds, resolved
/// flag values wherever a flag attribute stands, and a struct type
/// under every `flatten`.
pub open spec fn gen_field_ok(f: FieldV) -> bool {
    &&& f.ty.wf()
    &&& forall|j: int|
        0 <= j < f.attributes.len() ==> {
            let k = (#[trigger] f.attributes[j]).kind;
            &&& !(k is Main)
            &&& !(k is SubCommand)
            &&& (k is Short ==> f.short_value() is Some)
            &&& (k is Long ==> f.long_value() is Some)
            &&& (k is Alias ==> f.attributes[j].value is Some)
            &&& (k is Flatten ==> (f.ty matches TyV::Base(BaseV::Struct(_)) || f.ty matches TyV::Vec(
                BaseV::Struct(_),
            )))
        }
}

pub open spec fn gen_fields_ok(fields: Seq<FieldV>) -> bool {
    forall|i: int| 0 <= i < fields.len() ==> gen_field_ok(#[trigger] fields[i])
}

pub open spec fn gen_table_ok(table: Seq<StructV>) -> bool {
    forall|i: int| 0 <= i < table.len() ==> gen_fields_ok((#[trigger] table[i]).fields)
}

/// The matcher branch of one field: the `else if` over its spellings,
/// the value parse, the write into the dotted destination path, and
/// the mandatory-seen mark.
pub open spec fn own_branch_chunk(
    ind: nat,
    sname: Seq<char>,
    f: FieldV,
    matchers: Seq<Seq<char>>,
    parents: Seq<Seq<char>>,
    mfti: Seq<(Seq<char>, nat)>,
) -> Seq<char> {
    spaces(1) + "else if ("@ + join_with(matchers.map_values(|m: Seq<char>| strcmp_of(m)), " || "@)
        + ") {"@ + "\n"@ + parse_value_chunk(ind + 4, sname, f.ty) + (if f.ty is Vec {
        line_at(ind + 4, join_with(parents, "."@) + "."@ + f.name + ".push_back(arg_res);"@)
    } else {
        line_at(ind + 4, join_with(parents, "."@) + "."@ + f.name + " = arg_res;"@)
    }) + (match assoc_nat(mfti, f.name) {
        Some(ix) => line_at(ind + 4, "mandatory_fields_seen["@ + dec_nat(ix) + "] = true;"@),
        None => Seq::<char>::empty(),
    }) + spaces(ind) + "}"@
}

/// The text and matcher spellings contributed by `fields[fi]`'s
/// attributes from `j` on: flag attributes add spellings, `flatten`
/// attributes emit the branches of the struct they point at, written
/// into a destination path one segment deeper.
pub open spec fn field_attr_pass(
    ind: nat,
    table: Seq<StructV>,
    sname: Seq<char>,
    fields: Seq<FieldV>,
    fi: nat,
    j: nat,
    parents: Seq<Seq<char>>,
    mfti: Seq<(Seq<char>, nat)>,
    fuel: nat,
) -> (Seq<char>, Seq<Seq<char>>)
    decreases fuel, fields.len() - fi, 0int, (if fi < fields.len() {
        fields[fi as int].attributes.len() - j
    } else {
        0int
    }),
{
    if fi >= fields.len() {
        (Seq::empty(), Seq::empty())
    } else {
        let f = fields[fi as int];
        if j >= f.attributes.len() {
            (Seq::empty(), Seq::empty())
        } else {
            let rest = field_attr_pass(ind, table, sname, fields, fi, j + 1, parents, mfti, fuel);
            let a = f.attributes[j as int];
            match a.kind {
                AttributeType::Short => (
                    rest.0,
                    seq!["-"@ + opt_or_empty(f.short_value())] + rest.1,
                ),
                AttributeType::Long => (
                    rest.0,
                    seq!["--"@ + opt_or_empty(f.long_value())] + rest.1,
                ),
                AttributeType::Alias => (
                    rest.0,
                    seq!["--"@ + hyphenate(opt_or_empty(a.value))] + rest.1,
                ),
                AttributeType::Flatten => {
                    let nested = match f.ty {
                        TyV::Base(BaseV::Struct(n)) => match find_struct(table, n) {
                            Some(st) => if fuel >= 1 {
                                parse_fields_chunk(
                                    ind,
                                    table,
                                    sname,
                                    st.fields,
                                    0,
                                    parents.push(f.name),
                                    mfti,
                                    (fuel - 1) as nat,
                                )
                            } else {
                                Seq::<char>::empty()
                            },
                            None => Seq::<char>::empty(),
                        },
                        TyV::Vec(BaseV::Struct(n)) => match find_struct(table, n) {
                            Some(st) => if fuel >= 1 {
                                parse_fields_chunk(
                                    ind,
                                    table,
                                    sname,
                                    st.fields,
                                    0,
                                    parents.push(f.name),
                                    mfti,
                                    (fuel - 1) as nat,
                                )
                            } else {
                                Seq::<char>::empty()
                            },
                            None => Seq::<char>::empty(),
                        },
                        _ => Seq::<char>::empty(),
                    };
                    (nested + rest.0, rest.1)
                },
                _ => (rest.0, rest.1),
            }
        }
    }
}

/// The matcher branches of `fields[fi..]`, nested flatten branches
/// first per field, then the field's own branch when it has spellings.
pub open spec fn parse_fields_chunk(
    ind: nat,
    table: Seq<StructV>,
    sname: Seq<char>,
    fields: Seq<FieldV>,
    fi: nat,
    parents: Seq<Seq<char>>,
    mfti: Seq<(Seq<char>, nat)>,
    fuel: nat,
) -> Seq<char>
    decreases fuel, fields.len() - fi, 1int, 0int,
{
    if fi >= fields.len() {
        Seq::empty()
    } else {
        let pass = field_attr_pass(ind, table, sname, fields, fi, 0, parents, mfti, fuel);
        pass.0 + (if pass.1.len() > 0 {
            own_branch_chunk(ind, sname, fields[fi as int], pass.1, parents, mfti)
        } else {
            Seq::<char>::empty()
        }) + parse_fields_chunk(ind, table, sname, fields, fi + 1, parents, mfti, fuel)
    }
}

/// The index of the first entry under the given name, if any.
fn assoc_nat_exec(m: &Vec<(String, usize)>, k: &String) -> (r: Option<usize>)
    ensures
        match r {
            Some(j) => j < m@.len() && assoc_nat(mfti_view(m@), k@) == Some(m@[j as int].1 as nat),
            None => assoc_nat(mfti_view(m@), k@) is None,
        },
{
    let ghost whole = mfti_view(m@);
    let mut i: usize = 0;
    proof {
        assert(whole.skip(0) =~= whole);
    }
    while i < m.len()
        invariant
            i <= m@.len(),
            whole == mfti_view(m@),
            assoc_nat(whole, k@) == assoc_nat(whole.skip(i as int), k@),
        decreases m@.len() - i,
    {
        let ghost rest = whole.skip(i as int);
        proof {
            assert(rest[0] == (m@[i as int].0@, m@[i as int].1 as nat));
            assert(rest.drop_first() =~= whole.skip(i as int + 1));
        }
        if m[i].0 == *k {
            proof {
                assert(assoc_nat(rest, k@) == Some(rest[0].1));
            }
            return Some(i);
        }
        proof {
            assert(assoc_nat(rest, k@) == assoc_nat(rest.drop_first(), k@));
        }
        i += 1;
    }
    proof {
        assert(whole.skip(m@.len() as int).len() == 0);
    }
    None
}

/// The `else if (...)` condition over the matcher spellings.
fn matcher_condition(match_buffer: &Vec<String>) -> (r: Vec<char>)
    ensures
        r@ == "else if ("@ + join_with(
            parents_view(match_buffer@).map_values(|m: Seq<char>| strcmp_of(m)),
            " || "@,
        ) + ") {"@,
{
    let ghost parts = parents_view(match_buffer@).map_values(|m: Seq<char>| strcmp_of(m));
    let mut t = crate::text::str_to_chars("else if (");
    proof {
        assert(parts.skip(0) =~= parts);
    }
    let mut i: usize = 0;
    while i < match_buffer.len()
        invariant
            i <= match_buffer@.len(),
            parts == parents_view(match_buffer@).map_values(|m: Seq<char>| strcmp_of(m)),
            "else if ("@ + join_with(parts, " || "@) == t@ + join_with(
                parts.skip(i as int),
                " || "@,
            ),
        decreases match_buffer@.len() - i,
    {
        let ghost pre = t@;
        let ghost rest = parts.skip(i as int);
        append_str(&mut t, "strcmp(arg, \"");
        append_str(&mut t, match_buffer[i].as_str());
        append_str(&mut t, "\") == 0");
        if i + 1 < match_buffer.len() {
            append_str(&mut t, " || ");
        }
        proof {
            assert(rest[0] == strcmp_of(match_buffer@[i as int]@));
            assert(rest.drop_first() =~= parts.skip(i as int + 1));
            if i + 1 < match_buffer@.len() {
                assert(rest.len() >= 2);
                assert(join_with(rest, " || "@) == rest[0] + " || "@ + join_with(
                    rest.drop_first(),
                    " || "@,
                ));
                assert(pre + join_with(rest, " || "@) =~= t@ + join_with(
                    parts.skip(i as int + 1),
                    " || "@,
                ));
            } else {
                assert(rest.len() == 1);
                assert(join_with(rest, " || "@) == rest[0]);
                assert(join_with(parts.skip(i as int + 1), " || "@) == Seq::<char>::empty());
                assert(pre + join_with(rest, " || "@) =~= t@ + join_with(
                    parts.skip(i as int + 1),
                    " || "@,
                ));
            }
        }
        i += 1;
    }
    proof {
        assert(parts.skip(match_buffer@.len() as int).len() == 0);
        assert(t@ + Seq::<char>::empty() =~= t@);
    }
    append_str(&mut t, ") {");
    t
}

/// The dotted destination path.
fn destination_path(parents: &Vec<String>) -> (r: Vec<char>)
    ensures
        r@ == join_with(parents_view(parents@), "."@),
{
    let ghost parts = parents_view(parents@);
    let mut t: Vec<char> = Vec::new();
    proof {
        assert(parts.skip(0) =~= parts);
        assert(t@ =~= Seq::<char>::empty());
    }
    let mut i: usize = 0;
    while i < parents.len()
        invariant
            i <= parents@.len(),
            parts == parents_view(parents@),
            join_with(parts, "."@) == t@ + join_with(parts.skip(i as int), "."@),
        decreases parents@.len() - i,
    {
        let ghost pre = t@;
        let ghost rest = parts.skip(i as int);
        append_str(&mut t, parents[i].as_str());
        if i + 1 < parents.len() {
            append_str(&mut t, ".");
        }
        proof {
            assert(rest[0] == parents@[i as int]@);
            assert(rest.drop_first() =~= parts.skip(i as int + 1));
            if i + 1 < parents@.len() {
                assert(rest.len() >= 2);
                assert(join_with(rest, "."@) == rest[0] + "."@ + join_with(
                    rest.drop_first(),
                    "."@,
                ));
                assert(pre + join_with(rest, "."@) =~= t@ + join_with(
                    parts.skip(i as int + 1),
                    "."@,
                ));
            } else {
                assert(rest.len() == 1);
                assert(join_with(rest, "."@) == rest[0]);
                assert(join_with(parts.skip(i as int + 1), "."@) == Seq::<char>::empty());
                assert(pre + join_with(rest, "."@) =~= t@ + join_with(
                    parts.skip(i as int + 1),
                    "."@,
                ));
            }
        }
        i += 1;
    }
    proof {
        assert(parts.skip(parents@.len() as int).len() == 0);
        assert(t@ + Seq::<char>::empty() =~= t@);
    }
    t
}

impl CppSourceBuilder {
    /// The field's own matcher branch once its spellings are gathered.
    #[verifier::rlimit(100)]
    fn write_own_branch(
        &mut self,
        struct_name: &String,
        field: &Field,
        match_buffer: &Vec<String>,
        parents: &Vec<String>,
        mfti: &Vec<(String, usize)>,
    )
        requires
            ty_view(field.ty).wf(),
            old(self).ind() + 8 <= usize::MAX,
        ensures
            final(self).buf() == old(self).buf() + own_branch_chunk(
                old(self).ind(),
                struct_name@,
                field_view(*field),
                parents_view(match_buffer@),
                parents_view(parents@),
                mfti_view(mfti@),
            ),
            final(self).ind() == old(self).ind(),
    {
        let cond = matcher_condition(match_buffer);
        let saved = self.get_indentation_level();
        self.set_indentation_level(1);
        self.put_line_chars(&cond);
        self.set_indentation_level(saved);
        self.push_indentation_level();
        self.write_parse_field_type(struct_name, &field.ty);
        let mut dest = destination_path(parents);
        append_str(&mut dest, ".");
        append_str(&mut dest, field.name.as_str());
        if matches!(field.ty, FieldType::Vec(_)) {
            append_str(&mut dest, ".push_back(arg_res);");
        } else {
            append_str(&mut dest, " = arg_res;");
        }
        self.put_line_chars(&dest);
        match assoc_nat_exec(mfti, &field.name) {
            Some(j) => {
                let mut t = crate::text::str_to_chars("mandatory_fields_seen[");
                append_dec(mfti[j].1, &mut t);
                append_str(&mut t, "] = true;");
                self.put_line_chars(&t);
            },
            None => {},
        }
        self.pop_indentation_level();
        self.put_text("}");
        proof {
            assert(spaces(1nat) + "else if ("@ + join_with(
                parents_view(match_buffer@).map_values(|m: Seq<char>| strcmp_of(m)),
                " || "@,
            ) + ") {"@ + "\n"@ =~= spaces(1nat) + (("else if ("@ + join_with(
                parents_view(match_buffer@).map_values(|m: Seq<char>| strcmp_of(m)),
                " || "@,
            ) + ") {"@) + "\n"@));
            assert(self.buf() =~= old(self).buf() + own_branch_chunk(
                old(self).ind(),
                struct_name@,
                field_view(*field),
                parents_view(match_buffer@),
                parents_view(parents@),
                mfti_view(mfti@),
            ));
        }
    }

    /// The matcher branches of a field list: nested flatten branches
    /// first per field, then the field's own branch, searching in
    /// declared field order.
    #[verifier::loop_isolation(false)]
    #[verifier::rlimit(100)]
    #[verifier::spinoff_prover]
    pub(crate) fn write_parse_fields_r(
        &mut self,
        struct_name: &String,
        table: &Vec<Struct>,
        fields: &Vec<Field>,
        parents: &mut Vec<String>,
        mfti: &Vec<(String, usize)>,
        fuel: usize,
    )
        requires
            flatten_ok(structs_view(table@), fields_view(fields@), 0, fuel as nat),
            gen_fields_ok(fields_view(fields@)),
            gen_table_ok(structs_view(table@)),
            old(parents)@.len() >= 1,
            old(self).ind() + 8 <= usize::MAX,
        ensures
            final(self).buf() == old(self).buf() + parse_fields_chunk(
                old(self).ind(),
                structs_view(table@),
                struct_name@,
                fields_view(fields@),
                0,
                parents_view(old(parents)@),
                mfti_view(mfti@),
                fuel as nat,
            ),
            final(self).ind() == old(self).ind(),
            final(parents)@ == old(parents)@.drop_last(),
        decreases fuel,
    {
        let ghost tv = structs_view(table@);
        let ghost fv = fields_view(fields@);
        let ghost pv = parents_view(old(parents)@);
        let ghost mv = mfti_view(mfti@);
        let ghost ind0 = self.ind();
        let mut match_buffer: Vec<String> = Vec::new();
        let mut fi: usize = 0;
        while fi < fields.len()
            invariant
                fi <= fields@.len(),
                self.ind() == ind0,
                parents@ == old(parents)@,
                match_buffer@.len() == 0,
                flatten_ok(tv, fv, fi as nat, fuel as nat),
                old(self).buf() + parse_fields_chunk(ind0, tv, struct_name@, fv, 0, pv, mv, fuel as nat)
                    == self.buf() + parse_fields_chunk(
                    ind0,
                    tv,
                    struct_name@,
                    fv,
                    fi as nat,
                    pv,
                    mv,
                    fuel as nat,
                ),
            decreases fields@.len() - fi,
        {
            let field = &fields[fi];
            proof {
                assert(fv[fi as int] == field_view(fields@[fi as int]));
                assert(gen_field_ok(fv[fi as int]));
            }
            let ghost fbuf0 = self.buf();
            let mut j: usize = 0;
            while j < field.attributes.len()
                invariant
                    j <= field.attributes@.len(),
                    fi < fields@.len(),
                    field == &fields@[fi as int],
                    self.ind() == ind0,
                    parents@ == old(parents)@,
                    flatten_ok(tv, fv, fi as nat, fuel as nat),
                    fbuf0 + field_attr_pass(ind0, tv, struct_name@, fv, fi as nat, 0, pv, mv, fuel as nat).0
                        == self.buf() + field_attr_pass(
                        ind0,
                        tv,
                        struct_name@,
                        fv,
                        fi as nat,
                        j as nat,
                        pv,
                        mv,
                        fuel as nat,
                    ).0,
                    parents_view(match_buffer@) + field_attr_pass(
                        ind0,
                        tv,
                        struct_name@,
                        fv,
                        fi as nat,
                        j as nat,
                        pv,
                        mv,
                        fuel as nat,
                    ).1 == field_attr_pass(
                        ind0,
                        tv,
                        struct_name@,
                        fv,
                        fi as nat,
                        0,
                        pv,
                        mv,
                        fuel as nat,
                    ).1,
                decreases field.attributes@.len() - j,
            {
                let ghost pass_j = field_attr_pass(
                    ind0,
                    tv,
                    struct_name@,
                    fv,
                    fi as nat,
                    j as nat,
                    pv,
                    mv,
                    fuel as nat,
                );
                let ghost pass_j1 = field_attr_pass(
                    ind0,
                    tv,
                    struct_name@,
                    fv,
                    fi as nat,
                    j as nat + 1,
                    pv,
                    mv,
                    fuel as nat,
                );
                let a = &field.attributes[j];
                proof {
                    assert(fv[fi as int].attributes[j as int] == crate::types::attr_view(
                        field.attributes@[j as int],
                    ));
                }
                match a.ty {
                    AttributeType::Short => {
                        let sv = match field.short_value() {
                            Some(v) => v,
                            None => {
                                proof {
                                    assert(false);
                                }
                                String::new()
                            },
                        };
                        let mut m = crate::text::str_to_chars("-");
                        append_str(&mut m, sv.as_str());
                        let ghost mb0 = parents_view(match_buffer@);
                        match_buffer.push(chars_to_string(&m));
                        proof {
                            assert(parents_view(match_buffer@) =~= mb0.push(
                                "-"@ + opt_or_empty(fv[fi as int].short_value()),
                            ));
                            assert(mb0.push("-"@ + opt_or_empty(fv[fi as int].short_value()))
                                + pass_j1.1 =~= mb0 + (seq![
                                "-"@ + opt_or_empty(fv[fi as int].short_value()),
                            ] + pass_j1.1));
                        }
                    },
                    AttributeType::Long => {
                        let lv = match field.long_value() {
                            Some(v) => v,
                            None => {
                                proof {
                                    assert(false);
                                }
                                String::new()
                            },
                        };
                        let mut m = crate::text::str_to_chars("--");
                        append_str(&mut m, lv.as_str());
                        let ghost mb0 = parents_view(match_buffer@);
                        match_buffer.push(chars_to_string(&m));
                        proof {
                            assert(parents_view(match_buffer@) =~= mb0.push(
                                "--"@ + opt_or_empty(fv[fi as int].long_value()),
                            ));
                            assert(mb0.push("--"@ + opt_or_empty(fv[fi as int].long_value()))
                                + pass_j1.1 =~= mb0 + (seq![
                                "--"@ + opt_or_empty(fv[fi as int].long_value()),
                            ] + pass_j1.1));
                        }
                    },
                    AttributeType::Alias => {
                        let av = match &a.value {
                            Some(v) => v,
                            None => {
                                proof {
                                    assert(false);
                                }
                                return ;
                            },
                        };
                        let hv = crate::text::hyphenate_string(av);
                        let mut m = crate::text::str_to_chars("--");
                        append_str(&mut m, hv.as_str());
                        let ghost mb0 = parents_view(match_buffer@);
                        match_buffer.push(chars_to_string(&m));
                        proof {
                            let expect = "--"@ + hyphenate(
                                opt_or_empty(fv[fi as int].attributes[j as int].value),
                            );
                            assert(parents_view(match_buffer@) =~= mb0.push(expect));
                            assert(mb0.push(expect) + pass_j1.1 =~= mb0 + (seq![expect]
                                + pass_j1.1));
                        }
                    },
                    AttributeType::Flatten => {
                        let refname: &String = match &field.ty {
                            FieldType::Struct(n) => n,
                            FieldType::Vec(inner) => match &**inner {
                                FieldType::Struct(n) => n,
                                _ => {
                                    proof {
                                        assert(false);
                                    }
                                    return ;
                                },
                            },
                            _ => {
                                proof {
                                    assert(false);
                                }
                                return ;
                            },
                        };
                        proof {
                            assert(structs_view(table@).take(table@.len() as int) =~= tv);
                            assert(flatten_target(fv[fi as int]) == Some(refname@)) by {
                                assert(fv[fi as int] == field_view(fields@[fi as int]));
                                assert(fv[fi as int].ty == ty_view(field.ty));
                                assert(fv[fi as int].attributes[j as int].kind
                                    == AttributeType::Flatten);
                                crate::types::lemma_first_attr_some(
                                    fv[fi as int].attributes,
                                    AttributeType::Flatten,
                                );
                            }
                        }
                        match crate::semantic::find_struct_exec(table, table.len(), refname) {
                            Some(tj) => {
                                let ghost st = struct_view_of(table@[tj as int]);
                                proof {
                                    assert(st == tv[tj as int]);
                                    assert(find_struct(tv, refname@) == Some(st));
                                    assert(flatten_ok(tv, fv, fi as nat, fuel as nat));
                                    assert(fuel as nat >= 1);
                                    assert(flatten_ok(tv, st.fields, 0, (fuel - 1) as nat));
                                    assert(gen_fields_ok(st.fields));
                                }
                                parents.push(field.name.clone());
                                let ghost b1 = self.buf();
                                self.write_parse_fields_r(
                                    struct_name,
                                    table,
                                    &table[tj].fields,
                                    parents,
                                    mfti,
                                    fuel - 1,
                                );
                                proof {
                                    assert(parents@ =~= old(parents)@);
                                    assert(parents_view(old(parents)@.push(field.name))
                                        =~= pv.push(fv[fi as int].name));
                                    assert(self.buf() =~= b1 + parse_fields_chunk(
                                        ind0,
                                        tv,
                                        struct_name@,
                                        st.fields,
                                        0,
                                        pv.push(fv[fi as int].name),
                                        mv,
                                        (fuel - 1) as nat,
                                    ));
                                    assert(fbuf0 + field_attr_pass(
                                        ind0,
                                        tv,
                                        struct_name@,
                                        fv,
                                        fi as nat,
                                        0,
                                        pv,
                                        mv,
                                        fuel as nat,
                                    ).0 =~= self.buf() + pass_j1.0);
                                }
                            },
                            None => {
                                proof {
                                    assert(false);
                                }
                            },
                        }
                    },
                    _ => {
                        proof {
                            assert(false);
                        }
                    },
                }
                j += 1;
            }
            proof {
                assert(field_attr_pass(
                    ind0,
                    tv,
                    struct_name@,
                    fv,
                    fi as nat,
                    field.attributes@.len() as nat,
                    pv,
                    mv,
                    fuel as nat,
                ) == (Seq::<char>::empty(), Seq::<Seq<char>>::empty()));
                assert(parents_view(match_buffer@) + Seq::<Seq<char>>::empty() =~= parents_view(
                    match_buffer@,
                ));
                assert(fbuf0 + field_attr_pass(
                    ind0,
                    tv,
                    struct_name@,
                    fv,
                    fi as nat,
                    0,
                    pv,
                    mv,
                    fuel as nat,
                ).0 =~= self.buf() + Seq::<char>::empty());
            }
            if match_buffer.len() > 0 {
                self.write_own_branch(struct_name, field, &match_buffer, parents, mfti);
                match_buffer = Vec::new();
                proof {
                    assert(parents_view(match_buffer@) =~= Seq::<Seq<char>>::empty());
                }
            }
            fi += 1;
            proof {
                let pass0 = field_attr_pass(
                    ind0,
                    tv,
                    struct_name@,
                    fv,
                    (fi - 1) as nat,
                    0,
                    pv,
                    mv,
                    fuel as nat,
                );
                assert(parse_fields_chunk(ind0, tv, struct_name@, fv, (fi - 1) as nat, pv, mv, fuel as nat)
                    == pass0.0 + (if pass0.1.len() > 0 {
                    own_branch_chunk(ind0, struct_name@, fv[fi - 1], pass0.1, pv, mv)
                } else {
                    Seq::<char>::empty()
                }) + parse_fields_chunk(ind0, tv, struct_name@, fv, fi as nat, pv, mv, fuel as nat));
            }
        }
        proof {
            assert(parse_fields_chunk(
                ind0,
                tv,
                struct_name@,
                fv,
                fields@.len() as nat,
                pv,
                mv,
                fuel as nat,
            ) == Seq::<char>::empty());
            assert(self.buf() + Seq::<char>::empty() =~= self.buf());
            assert(old(self).buf() + parse_fields_chunk(
                ind0,
                tv,
                struct_name@,
                fv,
                0,
                pv,
                mv,
                fuel as nat,
            ) =~= self.buf());
        }
        let _popped = parents.pop();
    }
}



// ---------------------------------------------------------------------------
// The parse method and the whole translation unit.
// ---------------------------------------------------------------------------

/// Whether the struct carries an attribute of the given kind.
pub open spec fn has_attr_kind(attrs: Seq<AttrV>, kind: AttributeType) -> bool {
    crate::types::first_attr(attrs, kind) is Some
}

/// The mandatory fields of a struct (every field not typed
/// `Optional< >`), each mapped to its position among them.
pub open spec fn mandatory_assoc(fields: Seq<FieldV>, i: nat, next: nat) -> Seq<(Seq<char>, nat)>
    decreases fields.len() - i,
{
    if i >= fields.len() {
        Seq::empty()
    } else if fields[i as int].ty is Optional {
        mandatory_assoc(fields, i + 1, next)
    } else {
        seq![(fields[i as int].name, next)] + mandatory_assoc(fields, i + 1, next + 1)
    }
}

/// The quoted entries of the `mandatory_field_names` array.
pub open spec fn mandatory_name_parts(fields: Seq<FieldV>) -> Seq<Seq<char>> {
    fields.map_values(
        |f: FieldV|
            if f.ty is Optional {
                Seq::<char>::empty()
            } else {
                spaces(1) + "\""@ + f.name + "\","@
            },
    )
}

/// The opening of the parse method, through the help handling: the
/// signature, the program-name skip for the `main` struct, the
/// mandatory-field table, and the argument scan's first branch.
pub open spec fn parse_prologue_chunk(ind: nat, s: StructV) -> Seq<char> {
    "\n"@ + line_at(ind + 4, "static "@ + s.name + " parse (int argc, char *args[]) {"@) + (
    if has_attr_kind(s.attributes, AttributeType::Main) {
        line_at(ind + 8, "--argc;"@) + line_at(ind + 8, "++args;"@) + "\n"@
    } else {
        Seq::<char>::empty()
    }) + spaces(ind + 8) + "const char* mandatory_field_names[] = {"@ + cat_from(
        mandatory_name_parts(s.fields),
        0,
    ) + spaces(1) + "};"@ + "\n"@ + line_at(
        ind + 8,
        "bool mandatory_fields_seen[sizeof(mandatory_field_names)/sizeof(mandatory_field_names[0])] = { false };"@,
    ) + "\n"@ + line_at(ind + 8, s.name + " res = {};"@) + line_at(
        ind + 8,
        "for (int i = 0; i != argc; ++i, ++args) {"@,
    ) + line_at(ind + 12, "char *arg = args[0];"@) + line_at(
        ind + 12,
        "if (strcmp(\"-h\", arg) == 0 || strcmp(\"--help\", arg) == 0) {"@,
    ) + line_at(ind + 16, s.name + "::help();"@) + spaces(ind + 12) + "}"@
}

/// The close of the parse method: the unknown-option rejection and
/// the missing-mandatory check.
pub open spec fn parse_epilogue_chunk(ind: nat) -> Seq<char> {
    spaces(1) + "else {"@ + "\n"@ + line_at(
        ind + 16,
        "printf(\"Unknown option '%s'\\n\", arg);"@,
    ) + line_at(ind + 16, "exit(1);"@) + line_at(ind + 12, "}"@) + line_at(ind + 8, "}"@) + "\n"@
        + line_at(ind + 8, "bool not_seen_any = false;"@) + line_at(
        ind + 8,
        "for (size_t i = 0; i != sizeof(mandatory_field_names)/sizeof(mandatory_field_names[0]); ++i) {"@,
    ) + line_at(ind + 12, "if (!mandatory_fields_seen[i]) {"@) + line_at(
        ind + 16,
        "printf(\"--%s was required but it was not provided\\n\", mandatory_field_names[i]);"@,
    ) + line_at(ind + 16, "not_seen_any = true;"@) + line_at(ind + 12, "}"@) + line_at(
        ind + 8,
        "}"@,
    ) + line_at(ind + 8, "if (not_seen_any) {"@) + line_at(ind + 12, "exit(1);"@) + line_at(
        ind + 8,
        "}"@,
    ) + line_at(ind + 8, "return res;"@) + line_at(ind + 4, "}"@)
}

/// The whole parse method of a struct: the prologue, one matcher
/// branch per (transitively flattened) field, and the epilogue.
pub open spec fn parse_method_chunk(ind: nat, table: Seq<StructV>, s: StructV) -> Seq<char> {
    parse_prologue_chunk(ind, s) + parse_fields_chunk(
        ind + 12,
        table,
        s.name,
        s.fields,
        0,
        seq!["res"@],
        mandatory_assoc(s.fields, 0, 0),
        crate::types::flatten_fuel(table),
    ) + parse_epilogue_chunk(ind)
}

impl CppSourceBuilder {
    /// The matcher branches of a struct's fields, written into the
    /// destination path rooted at the result value.
    pub fn write_parse_fields(
        &mut self,
        struct_name: &String,
        fields: &Vec<Field>,
        spec_metadata: &SpecMetadata,
        mandatory_field_to_index: &Vec<(String, usize)>,
    )
        requires
            spec_metadata.structs@.len() < usize::MAX,
            flatten_resolvable(
                structs_view(spec_metadata.structs@),
                fields_view(fields@),
            ),
            gen_fields_ok(fields_view(fields@)),
            gen_table_ok(structs_view(spec_metadata.structs@)),
            old(self).ind() + 8 <= usize::MAX,
        ensures
            final(self).buf() == old(self).buf() + parse_fields_chunk(
                old(self).ind(),
                structs_view(spec_metadata.structs@),
                struct_name@,
                fields_view(fields@),
                0,
                seq!["res"@],
                mfti_view(mandatory_field_to_index@),
                crate::types::flatten_fuel(structs_view(spec_metadata.structs@)),
            ),
            final(self).ind() == old(self).ind(),
    {
        let mut parents: Vec<String> = Vec::new();
        parents.push(String::from_str("res"));
        proof {
            assert(parents_view(parents@) =~= seq!["res"@]);
        }
        let fuel = spec_metadata.structs.len() + 1;
        self.write_parse_fields_r(
            struct_name,
            &spec_metadata.structs,
            fields,
            &mut parents,
            mandatory_field_to_index,
            fuel,
        );
    }

    /// The opening of the parse method, returning the mandatory-field
    /// index map.
    #[verifier::loop_isolation(false)]
    #[verifier::rlimit(100)]
    #[verifier::spinoff_prover]
    fn write_parse_prologue(&mut self, strukt: &Struct) -> (mfti: Vec<(String, usize)>)
        requires
            old(self).ind() + 16 <= usize::MAX,
        ensures
            final(self).buf() == old(self).buf() + parse_prologue_chunk(
                old(self).ind(),
                struct_view_of(*strukt),
            ),
            final(self).ind() == old(self).ind() + 12,
            mfti_view(mfti@) == mandatory_assoc(struct_view_of(*strukt).fields, 0, 0),
    {
        let ghost sv = struct_view_of(*strukt);
        self.put_newline();
        self.push_indentation_level();
        let mut t = crate::text::str_to_chars("static ");
        append_str(&mut t, strukt.name.as_str());
        append_str(&mut t, " parse (int argc, char *args[]) {");
        self.put_line_chars(&t);
        self.push_indentation_level();
        let ghost av = crate::types::attrs_view(strukt.attributes@);
        let mut is_main = false;
        let mut ai: usize = 0;
        while ai < strukt.attributes.len()
            invariant
                ai <= strukt.attributes@.len(),
                is_main ==> exists|k: int|
                    0 <= k < av.len() && (#[trigger] av[k]).kind == AttributeType::Main,
                !is_main ==> forall|k: int|
                    0 <= k < ai ==> (#[trigger] av[k]).kind != AttributeType::Main,
            decreases strukt.attributes@.len() - ai,
        {
            if matches!(strukt.attributes[ai].ty, AttributeType::Main) {
                proof {
                    assert(av[ai as int] == crate::types::attr_view(
                        strukt.attributes@[ai as int],
                    ));
                }
                is_main = true;
            }
            ai += 1;
        }
        proof {
            crate::types::lemma_first_attr_some(av, AttributeType::Main);
            assert(is_main == has_attr_kind(sv.attributes, AttributeType::Main));
        }
        if is_main {
            self.put_line("--argc;");
            self.put_line("++args;");
            self.put_newline();
        }
        self.put_text("const char* mandatory_field_names[] = {");
        let indentation_level = self.get_indentation_level();
        self.set_indentation_level(1);
        let mfti = self.write_mandatory_names(strukt);
        self.put_line("};");
        self.set_indentation_level(indentation_level);
        self.put_line(
            "bool mandatory_fields_seen[sizeof(mandatory_field_names)/sizeof(mandatory_field_names[0])] = { false };",
        );
        self.put_newline();
        let mut t2 = crate::text::str_to_chars(strukt.name.as_str());
        append_str(&mut t2, " res = {};");
        self.put_line_chars(&t2);
        self.put_line("for (int i = 0; i != argc; ++i, ++args) {");
        self.push_indentation_level();
        self.put_line("char *arg = args[0];");
        self.put_line("if (strcmp(\"-h\", arg) == 0 || strcmp(\"--help\", arg) == 0) {");
        self.push_indentation_level();
        let mut t3 = crate::text::str_to_chars(strukt.name.as_str());
        append_str(&mut t3, "::help();");
        self.put_line_chars(&t3);
        self.pop_indentation_level();
        self.put_text("}");
        proof {
            assert(self.buf() =~= old(self).buf() + parse_prologue_chunk(old(self).ind(), sv));
        }
        mfti
    }

    /// The quoted mandatory-field names, building the index map as
    /// they are written.
    #[verifier::loop_isolation(false)]
    #[verifier::rlimit(100)]
    fn write_mandatory_names(&mut self, strukt: &Struct) -> (mfti: Vec<(String, usize)>)
        requires
            old(self).ind() == 1,
        ensures
            final(self).buf() == old(self).buf() + cat_from(
                mandatory_name_parts(struct_view_of(*strukt).fields),
                0,
            ),
            final(self).ind() == 1,
            mfti_view(mfti@) == mandatory_assoc(struct_view_of(*strukt).fields, 0, 0),
    {
        let ghost sv = struct_view_of(*strukt);
        let ghost name_parts = mandatory_name_parts(sv.fields);
        let mut mandatory_field_name_to_index: Vec<(String, usize)> = Vec::new();
        let ghost mark = self.buf();
        proof {
            assert(mfti_view(mandatory_field_name_to_index@) =~= Seq::<(Seq<char>, nat)>::empty());
        }
        let mut fi: usize = 0;
        while fi < strukt.fields.len()
            invariant
                fi <= strukt.fields@.len(),
                self.ind() == 1,
                self.buf() == mark + cat_to(name_parts, fi as nat),
                mandatory_field_name_to_index@.len() <= fi,
                mandatory_assoc(sv.fields, 0, 0) == mfti_view(mandatory_field_name_to_index@)
                    + mandatory_assoc(
                    sv.fields,
                    fi as nat,
                    mandatory_field_name_to_index@.len() as nat,
                ),
            decreases strukt.fields@.len() - fi,
        {
            let field = &strukt.fields[fi];
            proof {
                assert(sv.fields[fi as int] == field_view(strukt.fields@[fi as int]));
            }
            let ghost m0 = mfti_view(mandatory_field_name_to_index@);
            let ghost c0 = mandatory_field_name_to_index@.len() as nat;
            if !matches!(field.ty, FieldType::Optional(_)) {
                let mut q = crate::text::str_to_chars("\"");
                append_str(&mut q, field.name.as_str());
                append_str(&mut q, "\",");
                self.put_text_chars(&q);
                let ix = mandatory_field_name_to_index.len();
                mandatory_field_name_to_index.push((field.name.clone(), ix));
                proof {
                    assert(mfti_view(mandatory_field_name_to_index@) =~= m0.push(
                        (sv.fields[fi as int].name, c0),
                    ));
                    assert(mandatory_assoc(sv.fields, fi as nat, c0) == seq![
                        (sv.fields[fi as int].name, c0),
                    ] + mandatory_assoc(sv.fields, fi as nat + 1, c0 + 1));
                    assert(m0 + (seq![(sv.fields[fi as int].name, c0)] + mandatory_assoc(
                        sv.fields,
                        fi as nat + 1,
                        c0 + 1,
                    )) =~= mfti_view(mandatory_field_name_to_index@) + mandatory_assoc(
                        sv.fields,
                        fi as nat + 1,
                        c0 + 1,
                    ));
                }
            } else {
                proof {
                    assert(mandatory_assoc(sv.fields, fi as nat, c0) == mandatory_assoc(
                        sv.fields,
                        fi as nat + 1,
                        c0,
                    ));
                }
            }
            fi += 1;
            proof {
                assert(cat_to(name_parts, fi as nat) =~= cat_to(name_parts, (fi - 1) as nat)
                    + name_parts[fi - 1]);
                assert(self.buf() =~= mark + cat_to(name_parts, fi as nat));
            }
        }
        proof {
            lemma_cat_agree(name_parts, name_parts.len() as nat);
            assert(mandatory_assoc(
                sv.fields,
                sv.fields.len() as nat,
                mandatory_field_name_to_index@.len() as nat,
            ) =~= Seq::<(Seq<char>, nat)>::empty());
            assert(mfti_view(mandatory_field_name_to_index@) + Seq::<(Seq<char>, nat)>::empty()
                =~= mfti_view(mandatory_field_name_to_index@));
        }
        mandatory_field_name_to_index
    }

    /// The close of the parse method.
    #[verifier::rlimit(100)]
    fn write_parse_epilogue(&mut self)
        requires
            old(self).ind() >= 12,
            old(self).ind() + 4 <= usize::MAX,
        ensures
            final(self).buf() == old(self).buf() + parse_epilogue_chunk(
                (old(self).ind() - 12) as nat,
            ),
            final(self).ind() == (old(self).ind() - 12) as nat,
    {
        let ghost ind = (old(self).ind() - 12) as nat;
        let indentation_level2 = self.get_indentation_level();
        self.set_indentation_level(1);
        self.put_line("else {");
        self.set_indentation_level(indentation_level2);
        self.push_indentation_level();
        self.put_line("printf(\"Unknown option '%s'\\n\", arg);");
        self.put_line("exit(1);");
        self.pop_indentation_level();
        self.put_line("}");
        self.pop_indentation_level();
        self.put_line("}");
        self.put_newline();
        self.put_line("bool not_seen_any = false;");
        self.put_line(
            "for (size_t i = 0; i != sizeof(mandatory_field_names)/sizeof(mandatory_field_names[0]); ++i) {",
        );
        self.push_indentation_level();
        self.put_line("if (!mandatory_fields_seen[i]) {");
        self.push_indentation_level();
        self.put_line("printf(\"--%s was required but it was not provided\\n\", mandatory_field_names[i]);");
        self.put_line("not_seen_any = true;");
        self.pop_indentation_level();
        self.put_line("}");
        self.pop_indentation_level();
        self.put_line("}");
        self.put_line("if (not_seen_any) {");
        self.push_indentation_level();
        self.put_line("exit(1);");
        self.pop_indentation_level();
        self.put_line("}");
        self.put_line("return res;");
        self.pop_indentation_level();
        self.put_line("}");
        self.pop_indentation_level();
        proof {
            assert(self.buf() =~= old(self).buf() + parse_epilogue_chunk(ind));
        }
    }

    /// The parse method: scans the arguments, handles `-h`/`--help`,
    /// dispatches each known option to its field, rejects unknown
    /// options, and finally reports every missing mandatory field.
    #[verifier::rlimit(100)]
    pub fn write_struct_parse_method(&mut self, strukt: &Struct, spec_metadata: &SpecMetadata)
        requires
            spec_metadata.structs@.len() < usize::MAX,
            flatten_resolvable(
                structs_view(spec_metadata.structs@),
                fields_view(strukt.fields@),
            ),
            gen_fields_ok(fields_view(strukt.fields@)),
            gen_table_ok(structs_view(spec_metadata.structs@)),
            old(self).ind() + 20 <= usize::MAX,
        ensures
            final(self).buf() == old(self).buf() + parse_method_chunk(
                old(self).ind(),
                structs_view(spec_metadata.structs@),
                struct_view_of(*strukt),
            ),
            final(self).ind() == old(self).ind(),
    {
        let ghost table = structs_view(spec_metadata.structs@);
        let ghost sv = struct_view_of(*strukt);
        let mfti = self.write_parse_prologue(strukt);
        proof {
            assert(fields_view(strukt.fields@) == sv.fields);
        }
        self.write_parse_fields(&strukt.name, &strukt.fields, spec_metadata, &mfti);
        self.write_parse_epilogue();
        proof {
            assert(self.buf() =~= old(self).buf() + parse_method_chunk(
                old(self).ind(),
                table,
                sv,
            ));
        }
    }

    /// Everything emitted for one struct: its definition opening, its
    /// data members, and its four methods.
    #[verifier::loop_isolation(false)]
    #[verifier::rlimit(100)]
    fn write_one_struct(&mut self, strukt: &Struct, spec_metadata: &SpecMetadata)
        requires
            spec_metadata.structs@.len() < usize::MAX,
            flatten_resolvable(
                structs_view(spec_metadata.structs@),
                fields_view(strukt.fields@),
            ),
            2 * visible_fields(
                structs_view(spec_metadata.structs@),
                fields_view(strukt.fields@),
            ).len() <= usize::MAX,
            gen_fields_ok(fields_view(strukt.fields@)),
            gen_table_ok(structs_view(spec_metadata.structs@)),
            old(self).ind() == 0,
        ensures
            final(self).buf() == old(self).buf() + struct_chunk(
                structs_view(spec_metadata.structs@),
                struct_view_of(*strukt),
            ),
            final(self).ind() == 0,
    {
        let ghost table = structs_view(spec_metadata.structs@);
        let ghost sv = struct_view_of(*strukt);
        self.write_struct_start(&strukt.name);
        let ghost fparts = sv.fields.map_values(|f: FieldV| struct_field_chunk(0, f));
        let ghost fmark = self.buf();
        let mut fj: usize = 0;
        while fj < strukt.fields.len()
            invariant
                fj <= strukt.fields@.len(),
                self.buf() == fmark + cat_to(fparts, fj as nat),
                self.ind() == 0,
            decreases strukt.fields@.len() - fj,
        {
            proof {
                assert(field_view(strukt.fields@[fj as int]) == sv.fields[fj as int]);
                assert(gen_field_ok(sv.fields[fj as int]));
            }
            self.write_struct_field(&strukt.fields[fj]);
            fj += 1;
            proof {
                assert(cat_to(fparts, fj as nat) =~= cat_to(fparts, (fj - 1) as nat)
                    + fparts[fj - 1]);
                assert(self.buf() =~= fmark + cat_to(fparts, fj as nat));
            }
        }
        proof {
            lemma_cat_agree(fparts, fparts.len() as nat);
        }
        self.write_debug_print_method(strukt);
        self.write_struct_help_method(strukt, spec_metadata);
        self.write_is_option_method(strukt, spec_metadata);
        self.write_struct_parse_method(strukt, spec_metadata);
        self.write_struct_end();
        proof {
            reveal(struct_chunk);
            assert(self.buf() =~= old(self).buf() + struct_chunk(table, sv));
        }
    }
}

/// Everything emitted for one struct.
#[verifier::opaque]
pub open spec fn struct_chunk(table: Seq<StructV>, s: StructV) -> Seq<char> {
    struct_start_chunk(0, s.name) + cat_from(
        s.fields.map_values(|f: FieldV| struct_field_chunk(0, f)),
        0,
    ) + debug_chunk(0, s) + help_chunk(0, table, s) + is_option_chunk(0, table, s)
        + parse_method_chunk(0, table, s) + struct_end_chunk(0)
}

/// The whole generated translation unit.
#[verifier::opaque]
pub open spec fn cli_text(sv: SpecV) -> Seq<char> {
    header_guard_start_chunk(0) + include_headers_chunk(0) + cat_from(
        sv.structs.map_values(|s: StructV| struct_chunk(sv.structs, s)),
        0,
    ) + header_guard_end_chunk(0)
}

/// What code generation needs of a checked spec beyond semantic
/// validity: acyclic flatten references and sizes within the machine's
/// integers.
pub open spec fn generatable(sv: SpecV) -> bool {
    &&& sv.structs.len() < usize::MAX
    &&& gen_table_ok(sv.structs)
    &&& forall|i: int|
        0 <= i < sv.structs.len() ==> flatten_resolvable(
            sv.structs,
            (#[trigger] sv.structs[i]).fields,
        )
    &&& forall|i: int|
        0 <= i < sv.structs.len() ==> 2 * visible_fields(
            sv.structs,
            (#[trigger] sv.structs[i]).fields,
        ).len() <= usize::MAX
}

/// Generates the C++ translation unit for the whole spec: the header
/// guard and includes, then, per struct in declaration order, its data
/// members, debug printer, help method, option-recognition predicate
/// and parse method.
#[verifier::loop_isolation(false)]
#[verifier::rlimit(100)]
#[verifier::spinoff_prover]
pub fn generate_cli(spec: &Spec, spec_metadata: &SpecMetadata) -> (r: String)
    requires
        structs_view(spec_metadata.structs@) == crate::types::spec_view(*spec).structs,
        generatable(crate::types::spec_view(*spec)),
    ensures
        r@ == cli_text(crate::types::spec_view(*spec)),
{
    let ghost sv = crate::types::spec_view(*spec);
    let ghost parts = sv.structs.map_values(|s: StructV| struct_chunk(sv.structs, s));
    let mut source_builder = CppSourceBuilder::empty();
    source_builder.write_header_guard_start();
    source_builder.write_include_headers();
    let ghost mark = source_builder.buf();
    let mut i: usize = 0;
    while i < spec.structs.len()
        invariant
            i <= spec.structs@.len(),
            source_builder.buf() == mark + cat_to(parts, i as nat),
            source_builder.ind() == 0,
        decreases spec.structs@.len() - i,
    {
        let strukt = &spec.structs[i];
        proof {
            assert(struct_view_of(spec.structs@[i as int]) == sv.structs[i as int]);
            assert(fields_view(strukt.fields@) == sv.structs[i as int].fields);
            assert(gen_fields_ok(sv.structs[i as int].fields));
        }
        source_builder.write_one_struct(strukt, spec_metadata);
        i += 1;
        proof {
            assert(parts[i - 1] == struct_chunk(sv.structs, sv.structs[i - 1]));
            assert(cat_to(parts, i as nat) =~= cat_to(parts, (i - 1) as nat) + parts[i - 1]);
            assert(source_builder.buf() =~= mark + cat_to(parts, i as nat));
        }
    }
    proof {
        lemma_cat_agree(parts, parts.len() as nat);
    }
    source_builder.write_header_guard_end();
    let r = source_builder.result();
    proof {
        reveal(cli_text);
        assert(r@ =~= cli_text(sv));
    }
    r
}


// ---------------------------------------------------------------------------
// Deciding whether a checked spec can be generated.
// ---------------------------------------------------------------------------

fn gen_field_ok_exec(field: &Field) -> (r: bool)
    ensures
        r == gen_field_ok(field_view(*field)),
{
    let ghost fv = field_view(*field);
    let ty_ok: bool = match &field.ty {
        FieldType::Vec(inner) => !matches!(&**inner, FieldType::Vec(_))
            && !matches!(&**inner, FieldType::Optional(_)),
        FieldType::Optional(inner) => !matches!(&**inner, FieldType::Vec(_))
            && !matches!(&**inner, FieldType::Optional(_)),
        _ => true,
    };
    if !ty_ok {
        proof {
            assert(!fv.ty.wf());
        }
        return false;
    }
    let mut j: usize = 0;
    while j < field.attributes.len()
        invariant
            j <= field.attributes@.len(),
            fv == field_view(*field),
            fv.ty.wf(),
            forall|k: int|
                0 <= k < j ==> {
                    let kk = (#[trigger] fv.attributes[k]).kind;
                    &&& !(kk is Main)
                    &&& !(kk is SubCommand)
                    &&& (kk is Short ==> fv.short_value() is Some)
                    &&& (kk is Long ==> fv.long_value() is Some)
                    &&& (kk is Alias ==> fv.attributes[k].value is Some)
                    &&& (kk is Flatten ==> (fv.ty matches TyV::Base(BaseV::Struct(_))
                        || fv.ty matches TyV::Vec(BaseV::Struct(_))))
                },
        decreases field.attributes@.len() - j,
    {
        let a = &field.attributes[j];
        proof {
            assert(fv.attributes[j as int] == crate::types::attr_view(
                field.attributes@[j as int],
            ));
        }
        let ok: bool = match a.ty {
            AttributeType::Main => false,
            AttributeType::SubCommand => false,
            AttributeType::Short => field.short_value().is_some(),
            AttributeType::Long => field.long_value().is_some(),
            AttributeType::Alias => a.value.is_some(),
            AttributeType::Flatten => match &field.ty {
                FieldType::Struct(_) => true,
                FieldType::Vec(inner) => matches!(&**inner, FieldType::Struct(_)),
                _ => false,
            },
        };
        if !ok {
            proof {
                assert(!gen_field_ok(fv));
            }
            return false;
        }
        j += 1;
    }
    true
}

#[verifier::loop_isolation(false)]
fn gen_fields_ok_exec(fields: &Vec<Field>) -> (r: bool)
    ensures
        r == gen_fields_ok(fields_view(fields@)),
{
    let ghost fv = fields_view(fields@);
    let mut i: usize = 0;
    while i < fields.len()
        invariant
            i <= fields@.len(),
            forall|k: int| 0 <= k < i ==> gen_field_ok(#[trigger] fv[k]),
        decreases fields@.len() - i,
    {
        proof {
            assert(fv[i as int] == field_view(fields@[i as int]));
        }
        if !gen_field_ok_exec(&fields[i]) {
            return false;
        }
        i += 1;
    }
    true
}

/// Whether every flatten target among the fields resolves, recursively,
/// within `fuel` levels of nesting.
#[verifier::loop_isolation(false)]
fn flatten_ok_exec(table: &Vec<Struct>, fields: &Vec<Field>, fuel: usize) -> (r: bool)
    ensures
        r == flatten_ok(structs_view(table@), fields_view(fields@), 0, fuel as nat),
    decreases fuel, fields@.len(),
{
    let ghost tv = structs_view(table@);
    let ghost fv = fields_view(fields@);
    let mut i: usize = 0;
    while i < fields.len()
        invariant
            i <= fields@.len(),
            flatten_ok(tv, fv, 0, fuel as nat) == flatten_ok(tv, fv, i as nat, fuel as nat),
        decreases fields@.len() - i,
    {
        proof {
            assert(fv[i as int] == field_view(fields@[i as int]));
        }
        match crate::types::flatten_target_exec(&fields[i]) {
            Some(n) => {
                proof {
                    assert(structs_view(table@).take(table@.len() as int) =~= tv);
                }
                match crate::semantic::find_struct_exec(table, table.len(), n) {
                    Some(tj) => {
                        if fuel == 0 {
                            return false;
                        }
                        proof {
                            assert(struct_view_of(table@[tj as int]).fields == fields_view(
                                table@[tj as int].fields@,
                            ));
                        }
                        if !flatten_ok_exec(table, &table[tj].fields, fuel - 1) {
                            return false;
                        }
                    },
                    None => {
                        return false;
                    },
                }
            },
            None => {},
        }
        i += 1;
    }
    true
}

/// Whether the generator can handle the checked spec: acyclic flatten
/// references that all resolve, and sizes within the machine's
/// integers. A spec that fails this check would drive the generated
/// parse procedures into endless recursion, so generation refuses it.
pub fn can_generate(spec: &Spec, spec_metadata: &SpecMetadata) -> (r: bool)
    requires
        structs_view(spec_metadata.structs@) == crate::types::spec_view(*spec).structs,
    ensures
        r == generatable(crate::types::spec_view(*spec)),
{
    let ghost sv = crate::types::spec_view(*spec);
    if spec.structs.len() == usize::MAX {
        return false;
    }
    let fuel = spec.structs.len() + 1;
    let mut i: usize = 0;
    while i < spec.structs.len()
        invariant
            i <= spec.structs@.len(),
            spec.structs@.len() < usize::MAX,
            fuel == spec.structs@.len() + 1,
            structs_view(spec_metadata.structs@) == sv.structs,
            sv == crate::types::spec_view(*spec),
            forall|k: int| 0 <= k < i ==> gen_fields_ok((#[trigger] sv.structs[k]).fields),
            forall|k: int|
                0 <= k < i ==> flatten_resolvable(sv.structs, (#[trigger] sv.structs[k]).fields),
            forall|k: int|
                0 <= k < i ==> 2 * visible_fields(
                    sv.structs,
                    (#[trigger] sv.structs[k]).fields,
                ).len() <= usize::MAX,
        decreases spec.structs@.len() - i,
    {
        let strukt = &spec.structs[i];
        proof {
            assert(sv.structs[i as int] == struct_view_of(spec.structs@[i as int]));
            assert(fields_view(strukt.fields@) == sv.structs[i as int].fields);
        }
        if !gen_fields_ok_exec(&strukt.fields) {
            return false;
        }
        if !flatten_ok_exec(&spec.structs, &strukt.fields, fuel) {
            return false;
        }
        let vf = strukt.get_fields(spec_metadata);
        if vf.len() > usize::MAX / 2 {
            proof {
                assert(fields_view(vf@).len() == vf@.len());
            }
            return false;
        }
        proof {
            assert(fields_view(vf@).len() == vf@.len());
        }
        i += 1;
    }
    true
}


} // verus!

use vstd::prelude::*;
use crate::chars::{find_from, trim, trim_end_char, starts_with, ends_with, contains_char, split, lines, parse_unsigned,
    chars_of, same_chars, string_of, sub_chars, trim_chars, trim_end_char_chars, starts_with_chars, ends_with_chars,
    find_chars, find_char, split_chars, lines_chars, parse_unsigned_chars, lemma_find_from_found};
use crate::text::{decimal, push_decimal, push_text};

verus! {

// ---------------------------------------------------------------------------
// The RPC methods that a source file declares in `atlas_rpc_module!` blocks,
// and the TypeScript classes generated for their request and response types.
// ---------------------------------------------------------------------------

/// An RPC method found in a source file.
#[derive(Debug)]
pub struct RpcInfo {
    pub module_id: u16,
    pub method_id: u16,
    pub _rpc_name: String,
    pub request: String,
    pub response: String,
}

/// The mathematical model of an `RpcInfo`.
pub struct RpcSpec {
    pub module_id: u16,
    pub method_id: u16,
    pub name: Seq<char>,
    pub request: Seq<char>,
    pub response: Seq<char>,
}

impl View for RpcInfo {
    type V = RpcSpec;

    open spec fn view(&self) -> RpcSpec {
        RpcSpec {
            module_id: self.module_id,
            method_id: self.method_id,
            name: self._rpc_name@,
            request: self.request@,
            response: self.response@,
        }
    }
}

pub open spec fn rpc_views(v: Seq<RpcInfo>) -> Seq<RpcSpec> {
    Seq::new(v.len(), |i: int| v[i]@)
}

/// The number of the module that `ModuleId = ...` names; 0 for an unknown one.
pub open spec fn module_id_value(s: Seq<char>) -> u16 {
    if s == "AtlasModuleId::Auth"@ {
        1
    } else if s == "AtlasModuleId::Chat"@ {
        2
    } else if s == "AtlasModuleId::Holdem"@ {
        3
    } else {
        0
    }
}

/// The number of the module named `s`; see `module_id_value`.
pub fn module_id_to_u16(s: &str) -> (r: u16)
    ensures
        r == module_id_value(s@),
{
    let v = chars_of(s);
    if same_chars(v.as_slice(), chars_of("AtlasModuleId::Auth").as_slice()) {
        1
    } else if same_chars(v.as_slice(), chars_of("AtlasModuleId::Chat").as_slice()) {
        2
    } else if same_chars(v.as_slice(), chars_of("AtlasModuleId::Holdem").as_slice()) {
        3
    } else {
        0
    }
}

/// The bodies of the `atlas_rpc_module!` blocks of `c` at or after
/// `offset`: for each, the text between the first `{` after the macro's name
/// and the first `}` after that.
pub open spec fn module_bodies(c: Seq<char>, offset: int) -> Seq<Seq<char>>
    decreases c.len() + 1 - offset,
{
    match find_from(c, "atlas_rpc_module!"@, offset) {
        None => seq![],
        Some(start) => match find_from(c, seq!['{'], start) {
            None => seq![],
            Some(open) => match find_from(c, seq!['}'], open) {
                None => seq![],
                Some(close) => {
                    proof {
                        lemma_find_from_found(c, "atlas_rpc_module!"@, offset);
                        lemma_find_from_found(c, seq!['{'], start);
                        lemma_find_from_found(c, seq!['}'], open);
                    }
                    seq![c.subrange(open + 1, close)] + module_bodies(c, close + 1)
                },
            },
        },
    }
}

/// The module number a `ModuleId = ...;` line sets, or `current` if the
/// line has no `=`.
pub open spec fn module_line_id(line: Seq<char>, current: u16) -> u16 {
    match find_from(line, seq!['='], 0) {
        Some(eq) => module_id_value(trim_end_char(trim(line.subrange(eq + 1, line.len() as int)), ';')),
        None => current,
    }
}

/// The method number of an RPC line; 0 where it is not a `u16`.
pub open spec fn method_number(s: Seq<char>) -> u16 {
    match parse_unsigned(s, 65535) {
        Some(v) => v as u16,
        None => 0,
    }
}

/// The name, method number, request and response of a line
/// `Name = (number, Request, Response),`, if it has that shape: exactly one
/// `=`, a right side in parentheses (trailing commas dropped) holding
/// exactly three comma-separated items.
pub open spec fn rpc_line(line: Seq<char>) -> Option<(Seq<char>, u16, Seq<char>, Seq<char>)> {
    if contains_char(line, '=') && contains_char(line, '(') && contains_char(line, ')') {
        let parts = split(line, '=');
        if parts.len() != 2 {
            None
        } else {
            let tuple = trim_end_char(trim(parts[1]), ',');
            if starts_with(tuple, seq!['(']) && ends_with(tuple, seq![')']) {
                let elems = split(tuple.subrange(1, tuple.len() - 1), ',');
                if elems.len() == 3 {
                    Some((trim(parts[0]), method_number(trim(elems[0])), trim(elems[1]), trim(elems[2])))
                } else {
                    None
                }
            } else {
                None
            }
        }
    } else {
        None
    }
}

/// The RPC methods declared by the lines of one block, each with the module
/// number set by the last `ModuleId` line before it (0 before any).
pub open spec fn parse_lines(ls: Seq<Seq<char>>, module_id: u16) -> Seq<RpcSpec>
    decreases ls.len(),
{
    if ls.len() == 0 {
        seq![]
    } else {
        let line = trim(ls[0]);
        if starts_with(line, "ModuleId"@) {
            parse_lines(ls.drop_first(), module_line_id(line, module_id))
        } else {
            match rpc_line(line) {
                Some((name, method_id, request, response)) => seq![
                    RpcSpec { module_id, method_id, name, request, response },
                ] + parse_lines(ls.drop_first(), module_id),
                None => parse_lines(ls.drop_first(), module_id),
            }
        }
    }
}

pub open spec fn rpcs_of_bodies(bodies: Seq<Seq<char>>) -> Seq<RpcSpec>
    decreases bodies.len(),
{
    if bodies.len() == 0 {
        seq![]
    } else {
        parse_lines(lines(bodies[0]), 0) + rpcs_of_bodies(bodies.drop_first())
    }
}

/// The RPC methods declared in the source text `c`, block after block.
pub open spec fn rpcs_of_source(c: Seq<char>) -> Seq<RpcSpec> {
    rpcs_of_bodies(module_bodies(c, 0))
}

fn rpc_line_exec(line: &Vec<char>) -> (r: Option<(Vec<char>, u16, Vec<char>, Vec<char>)>)
    ensures
        r matches Some(x) ==> rpc_line(line@) == Some((x.0@, x.1, x.2@, x.3@)),
        r is None ==> rpc_line(line@) is None,
{
    let has_eq = find_char(line.as_slice(), '=', 0).is_some();
    let has_open = find_char(line.as_slice(), '(', 0).is_some();
    let has_close = find_char(line.as_slice(), ')', 0).is_some();
    if !(has_eq && has_open && has_close) {
        return None;
    }
    let parts = split_chars(line.as_slice(), '=');
    if parts.len() != 2 {
        return None;
    }
    let tuple = trim_end_char_chars(trim_chars(parts[1].as_slice()).as_slice(), ',');
    let open_paren: Vec<char> = vec!['('];
    let close_paren: Vec<char> = vec![')'];
    proof {
        assert(open_paren@ =~= seq!['(']);
        assert(close_paren@ =~= seq![')']);
    }
    if !(starts_with_chars(tuple.as_slice(), open_paren.as_slice()) && ends_with_chars(tuple.as_slice(), close_paren.as_slice())) {
        return None;
    }
    proof {
        assert(tuple@[0] == '(');
        assert(tuple@.subrange(tuple@.len() - 1, tuple@.len() as int)[0] == ')');
        assert(tuple@.len() >= 2);
    }
    let inner = sub_chars(tuple.as_slice(), 1, tuple.len() - 1);
    let elems = split_chars(inner.as_slice(), ',');
    if elems.len() != 3 {
        return None;
    }
    let name = trim_chars(parts[0].as_slice());
    let number = trim_chars(elems[0].as_slice());
    let method_id: u16 = match parse_unsigned_chars(number.as_slice(), 65535) {
        Some(v) => v as u16,
        None => 0,
    };
    let request = trim_chars(elems[1].as_slice());
    let response = trim_chars(elems[2].as_slice());
    Some((name, method_id, request, response))
}

/// The RPC methods declared by the lines `ls` of one block.
fn parse_lines_exec(ls: &Vec<Vec<char>>, out: &mut Vec<RpcInfo>)
    ensures
        rpc_views(final(out)@) == rpc_views(old(out)@) + parse_lines(Seq::new(ls@.len(), |i: int| ls@[i]@), 0),
{
    let ghost all = Seq::new(ls@.len(), |i: int| ls@[i]@);
    let ghost start = rpc_views(out@);
    let module_prefix = chars_of("ModuleId");
    let mut module_id: u16 = 0;
    let mut i: usize = 0;
    proof {
        assert(all.subrange(0, all.len() as int) =~= all);
    }
    while i < ls.len()
        invariant
            i <= ls@.len(),
            all == Seq::new(ls@.len(), |i: int| ls@[i]@),
            module_prefix@ == "ModuleId"@,
            start + parse_lines(all, 0) == rpc_views(out@) + parse_lines(all.subrange(i as int, all.len() as int), module_id),
        decreases ls@.len() - i,
    {
        let ghost rest = all.subrange(i as int, all.len() as int);
        proof {
            assert(rest.drop_first() =~= all.subrange(i + 1, all.len() as int));
            assert(rest[0] == ls@[i as int]@);
        }
        let line = trim_chars(ls[i].as_slice());
        if starts_with_chars(line.as_slice(), module_prefix.as_slice()) {
            match find_char(line.as_slice(), '=', 0) {
                Some(eq) => {
                    proof {
                        lemma_find_from_found(line@, seq!['='], 0);
                    }
                    let val = trim_end_char_chars(trim_chars(sub_chars(line.as_slice(), eq + 1, line.len()).as_slice()).as_slice(), ';');
                    let val_text = string_of(val.as_slice(), 0, val.len());
                    proof {
                        assert(val@.subrange(0, val@.len() as int) =~= val@);
                    }
                    module_id = module_id_to_u16(val_text.as_str());
                },
                None => {},
            }
        } else {
            match rpc_line_exec(&line) {
                Some((name, method_id, request, response)) => {
                    let info = RpcInfo {
                        module_id,
                        method_id,
                        _rpc_name: string_of(name.as_slice(), 0, name.len()),
                        request: string_of(request.as_slice(), 0, request.len()),
                        response: string_of(response.as_slice(), 0, response.len()),
                    };
                    proof {
                        assert(name@.subrange(0, name@.len() as int) =~= name@);
                        assert(request@.subrange(0, request@.len() as int) =~= request@);
                        assert(response@.subrange(0, response@.len() as int) =~= response@);
                    }
                    let ghost before = rpc_views(out@);
                    out.push(info);
                    proof {
                        assert(rpc_views(out@) =~= before.push(info@));
                        assert(start + parse_lines(all, 0) =~= rpc_views(out@) + parse_lines(all.subrange(i + 1, all.len() as int), module_id));
                    }
                },
                None => {},
            }
        }
        i = i + 1;
    }
    proof {
        assert(all.subrange(ls@.len() as int, all.len() as int) =~= Seq::<Seq<char>>::empty());
        assert(rpc_views(out@) + parse_lines(Seq::<Seq<char>>::empty(), module_id) =~= rpc_views(out@));
    }
}

/// The RPC methods declared in `content`; see `rpcs_of_source`.
pub fn collect_rpcs_from_source(content: &str) -> (r: Vec<RpcInfo>)
    ensures
        rpc_views(r@) == rpcs_of_source(content@),
{
    let c = chars_of(content);
    let marker = chars_of("atlas_rpc_module!");
    let mut rpcs: Vec<RpcInfo> = Vec::new();
    let mut offset: usize = 0;
    let n = c.len();
    proof {
        assert(rpc_views(rpcs@) =~= Seq::<RpcSpec>::empty());
    }
    loop
        invariant
            n == c@.len(),
            c@ == content@,
            marker@ == "atlas_rpc_module!"@,
            offset <= n + 1,
            rpcs_of_source(c@) == rpc_views(rpcs@) + rpcs_of_bodies(module_bodies(c@, offset as int)),
        decreases n + 1 - offset,
    {
        let start = match find_chars(c.as_slice(), marker.as_slice(), offset) {
            Some(s) => s,
            None => {
                proof {
                    assert(rpc_views(rpcs@) + rpcs_of_bodies(seq![]) =~= rpc_views(rpcs@));
                }
                return rpcs;
            },
        };
        proof {
            lemma_find_from_found(c@, "atlas_rpc_module!"@, offset as int);
        }
        let open = match find_char(c.as_slice(), '{', start) {
            Some(o) => o,
            None => {
                proof {
                    assert(rpc_views(rpcs@) + rpcs_of_bodies(seq![]) =~= rpc_views(rpcs@));
                }
                return rpcs;
            },
        };
        proof {
            lemma_find_from_found(c@, seq!['{'], start as int);
        }
        let close = match find_char(c.as_slice(), '}', open) {
            Some(x) => x,
            None => {
                proof {
                    assert(rpc_views(rpcs@) + rpcs_of_bodies(seq![]) =~= rpc_views(rpcs@));
                }
                return rpcs;
            },
        };
        proof {
            lemma_find_from_found(c@, seq!['}'], open as int);
            assert(seq!['}'].len() == 1);
            assert(c@.subrange(open as int, open + 1)[0] == '{');
            assert(c@.subrange(close as int, close + 1)[0] == '}');
        }
        let body = sub_chars(c.as_slice(), open + 1, close);
        let ls = lines_chars(body.as_slice());
        let ghost before = rpc_views(rpcs@);
        let ghost bodies = module_bodies(c@, offset as int);
        proof {
            assert(bodies == seq![c@.subrange(open + 1, close as int)] + module_bodies(c@, close + 1));
            assert(bodies[0] == body@);
            assert(bodies.drop_first() =~= module_bodies(c@, close + 1));
            assert(Seq::new(ls@.len(), |i: int| ls@[i]@) =~= lines(body@));
        }
        parse_lines_exec(&ls, &mut rpcs);
        proof {
            assert(rpcs_of_source(c@) =~= rpc_views(rpcs@) + rpcs_of_bodies(module_bodies(c@, close + 1)));
        }
        offset = close + 1;
    }
}

// ---------------------------------------------------------------------------
// TypeScript
// ---------------------------------------------------------------------------

/// The shape of a Rust type as the generator reads it: a path with the name
/// of its last segment and the first type in its angle brackets, if any; or
/// any other type.
#[derive(Debug)]
pub enum RustType {
    Path { ident: String, arg: Option<Box<RustType>> },
    Other,
}

/// Whether a type name is one of the Rust number types.
pub open spec fn is_number_name(id: Seq<char>) -> bool {
    ||| id == "u8"@ || id == "u16"@ || id == "u32"@ || id == "u64"@
    ||| id == "i8"@ || id == "i16"@ || id == "i32"@ || id == "i64"@
    ||| id == seq!['f', '3', '2'] || id == seq!['f', '6', '4']
}

/// The TypeScript type of a Rust type: strings, numbers and booleans map to
/// `string`, `number` and `boolean`; an `Option` to its inner type or
/// `null`; a `Vec` to an array of its inner type; anything else to `any`.
pub open spec fn ts_type(t: RustType) -> Seq<char>
    decreases t,
{
    match t {
        RustType::Other => "any"@,
        RustType::Path { ident, arg } => {
            let id = ident@;
            if id == "String"@ || id == "str"@ {
                "string"@
            } else if is_number_name(id) {
                "number"@
            } else if id == "bool"@ {
                "boolean"@
            } else if id == "Option"@ {
                match arg {
                    Some(a) => ts_type(*a) + " | null"@,
                    None => "any | null"@,
                }
            } else if id == "Vec"@ {
                match arg {
                    Some(a) => ts_type(*a) + "[]"@,
                    None => "any[]"@,
                }
            } else {
                "any"@
            }
        },
    }
}

fn is_text(v: &Vec<char>, t: &str) -> (r: bool)
    ensures
        r == (v@ == t@),
{
    same_chars(v.as_slice(), chars_of(t).as_slice())
}

/// The TypeScript type of `ty`; see `ts_type`.
pub fn rust_type_to_ts(ty: &RustType) -> (r: String)
    ensures
        r@ == ts_type(*ty),
    decreases ty,
{
    match ty {
        RustType::Other => "any".to_owned(),
        RustType::Path { ident, arg } => {
            let id = chars_of(ident.as_str());
            let f32_name: Vec<char> = vec!['f', '3', '2'];
            let f64_name: Vec<char> = vec!['f', '6', '4'];
            proof {
                assert(f32_name@ =~= seq!['f', '3', '2']);
                assert(f64_name@ =~= seq!['f', '6', '4']);
            }
            if is_text(&id, "String") || is_text(&id, "str") {
                "string".to_owned()
            } else if is_text(&id, "u8") || is_text(&id, "u16") || is_text(&id, "u32") || is_text(&id, "u64") || is_text(
                &id,
                "i8",
            ) || is_text(&id, "i16") || is_text(&id, "i32") || is_text(&id, "i64") || same_chars(id.as_slice(), f32_name.as_slice())
                || same_chars(id.as_slice(), f64_name.as_slice()) {
                "number".to_owned()
            } else if is_text(&id, "bool") {
                "boolean".to_owned()
            } else if is_text(&id, "Option") {
                match arg {
                    Some(a) => {
                        let mut s = rust_type_to_ts(a);
                        push_text(&mut s, " | null");
                        s
                    },
                    None => "any | null".to_owned(),
                }
            } else if is_text(&id, "Vec") {
                match arg {
                    Some(a) => {
                        let mut s = rust_type_to_ts(a);
                        push_text(&mut s, "[]");
                        s
                    },
                    None => "any[]".to_owned(),
                }
            } else {
                "any".to_owned()
            }
        },
    }
}

/// A field of a struct: its name and type.
#[derive(Debug)]
pub struct FieldShape {
    pub name: String,
    pub ty: RustType,
}

/// A struct of a source file: its name and its named fields (none for a
/// tuple or unit struct).
#[derive(Debug)]
pub struct StructShape {
    pub name: String,
    pub fields: Vec<FieldShape>,
}

/// Whether the RPC method `r` has `name` as its request or response type.
pub open spec fn serves(r: RpcSpec, name: Seq<char>) -> bool {
    r.request == name || r.response == name
}

/// The first index at or after `i` of an RPC method with `name` as its
/// request or response type.
pub open spec fn rpc_index_from(rpcs: Seq<RpcSpec>, name: Seq<char>, i: int) -> Option<int>
    decreases rpcs.len() - i,
{
    if i < 0 || i >= rpcs.len() {
        None
    } else if serves(rpcs[i], name) {
        Some(i)
    } else {
        rpc_index_from(rpcs, name, i + 1)
    }
}

/// The first RPC method whose request or response type is named `name`.
pub open spec fn rpc_for_struct(rpcs: Seq<RpcSpec>, name: Seq<char>) -> Option<int> {
    rpc_index_from(rpcs, name, 0)
}

/// The first index of `rpcs` whose request or response type is named `name`.
pub fn find_rpc_for(rpcs: &Vec<RpcInfo>, name: &String) -> (r: Option<usize>)
    ensures
        r matches Some(i) ==> i < rpcs@.len() && rpc_for_struct(rpc_views(rpcs@), name@) == Some(i as int),
        r is None ==> rpc_for_struct(rpc_views(rpcs@), name@) is None,
{
    let ghost rv = rpc_views(rpcs@);
    let n = chars_of(name.as_str());
    let mut i: usize = 0;
    while i < rpcs.len()
        invariant
            i <= rpcs@.len(),
            rv == rpc_views(rpcs@),
            n@ == name@,
            rpc_for_struct(rv, name@) == rpc_index_from(rv, name@, i as int),
        decreases rpcs@.len() - i,
    {
        let req = chars_of(rpcs[i].request.as_str());
        let resp = chars_of(rpcs[i].response.as_str());
        proof {
            assert(rv[i as int] == rpcs@[i as int]@);
        }
        if same_chars(req.as_slice(), n.as_slice()) || same_chars(resp.as_slice(), n.as_slice()) {
            return Some(i);
        }
        i = i + 1;
    }
    None
}

/// The lines `prefix name: type;` of the fields.
pub open spec fn field_decls(fields: Seq<(Seq<char>, Seq<char>)>, prefix: Seq<char>) -> Seq<char>
    decreases fields.len(),
{
    if fields.len() == 0 {
        seq![]
    } else {
        field_decls(fields.drop_last(), prefix) + prefix + fields.last().0 + ": "@ + fields.last().1 + ";\n"@
    }
}

/// The constructor lines `this.name = props.name;` of the fields.
pub open spec fn field_inits(fields: Seq<(Seq<char>, Seq<char>)>) -> Seq<char>
    decreases fields.len(),
{
    if fields.len() == 0 {
        seq![]
    } else {
        field_inits(fields.drop_last()) + "        this."@ + fields.last().0 + " = props."@ + fields.last().0 + ";\n"@
    }
}

/// The TypeScript file for the request or response type `name` of an RPC
/// method of module `module_id`: an import of `WirePayload`, an interface
/// `<name>Props` with the fields, and a class `<name>` extending
/// `WirePayload` with the method id `module << 16 | method`, the fields
/// and a constructor that copies them from the props.
pub open spec fn ts_text(name: Seq<char>, module_id: u16, method_id: u16, fields: Seq<(Seq<char>, Seq<char>)>) -> Seq<char> {
    "import {WirePayload} from \"db://assets/scripts/wire/base/Message\";\n\n"@
        + "export interface "@ + name + "Props {\n"@
        + field_decls(fields, "    "@)
        + "}\n\n"@
        + "export class "@ + name + " extends WirePayload{\n"@
        + "    static readonly METHOD = "@ + decimal(module_id as nat) + " << 16 | "@ + decimal(method_id as nat) + ";\n\n"@
        + field_decls(fields, "    "@)
        + "\n"@
        + "    constructor(\n        props: "@ + name + "Props\n    ) {\n"@
        + "        super();\n"@
        + field_inits(fields)
        + "    }\n"@
        + "}\n"@
}

pub open spec fn field_views(fields: Seq<(String, String)>) -> Seq<(Seq<char>, Seq<char>)> {
    Seq::new(fields.len(), |i: int| (fields[i].0@, fields[i].1@))
}

fn push_field_decls(s: &mut String, fields: &Vec<(String, String)>, prefix: &str)
    ensures
        final(s)@ == old(s)@ + field_decls(field_views(fields@), prefix@),
{
    let ghost fv = field_views(fields@);
    let ghost start = s@;
    let mut i: usize = 0;
    while i < fields.len()
        invariant
            i <= fields@.len(),
            fv == field_views(fields@),
            s@ == start + field_decls(fv.take(i as int), prefix@),
        decreases fields@.len() - i,
    {
        push_text(s, prefix);
        push_text(s, fields[i].0.as_str());
        push_text(s, ": ");
        push_text(s, fields[i].1.as_str());
        push_text(s, ";\n");
        proof {
            assert(fv.take(i + 1).drop_last() =~= fv.take(i as int));
            assert(fv.take(i + 1).last() == fv[i as int]);
            assert(s@ =~= start + field_decls(fv.take(i + 1), prefix@));
        }
        i = i + 1;
    }
    proof {
        assert(fv.take(fields@.len() as int) =~= fv);
    }
}

fn push_field_inits(s: &mut String, fields: &Vec<(String, String)>)
    ensures
        final(s)@ == old(s)@ + field_inits(field_views(fields@)),
{
    let ghost fv = field_views(fields@);
    let ghost start = s@;
    let mut i: usize = 0;
    while i < fields.len()
        invariant
            i <= fields@.len(),
            fv == field_views(fields@),
            s@ == start + field_inits(fv.take(i as int)),
        decreases fields@.len() - i,
    {
        push_text(s, "        this.");
        push_text(s, fields[i].0.as_str());
        push_text(s, " = props.");
        push_text(s, fields[i].0.as_str());
        push_text(s, ";\n");
        proof {
            assert(fv.take(i + 1).drop_last() =~= fv.take(i as int));
            assert(fv.take(i + 1).last() == fv[i as int]);
            assert(s@ =~= start + field_inits(fv.take(i + 1)));
        }
        i = i + 1;
    }
    proof {
        assert(fv.take(fields@.len() as int) =~= fv);
    }
}

/// The TypeScript file of the type `name`; see `ts_text`.
pub fn ts_source(name: &str, rpc: &RpcInfo, fields: &Vec<(String, String)>) -> (r: String)
    ensures
        r@ == ts_text(name@, rpc.module_id, rpc.method_id, field_views(fields@)),
{
    let mut code = String::new();
    push_text(&mut code, "import {WirePayload} from \"db://assets/scripts/wire/base/Message\";\n\n");
    push_text(&mut code, "export interface ");
    push_text(&mut code, name);
    push_text(&mut code, "Props {\n");
    push_field_decls(&mut code, fields, "    ");
    push_text(&mut code, "}\n\n");
    push_text(&mut code, "export class ");
    push_text(&mut code, name);
    push_text(&mut code, " extends WirePayload{\n");
    push_text(&mut code, "    static readonly METHOD = ");
    push_decimal(&mut code, rpc.module_id as u64);
    push_text(&mut code, " << 16 | ");
    push_decimal(&mut code, rpc.method_id as u64);
    push_text(&mut code, ";\n\n");
    push_field_decls(&mut code, fields, "    ");
    push_text(&mut code, "\n");
    push_text(&mut code, "    constructor(\n        props: ");
    push_text(&mut code, name);
    push_text(&mut code, "Props\n    ) {\n");
    push_text(&mut code, "        super();\n");
    push_field_inits(&mut code, fields);
    push_text(&mut code, "    }\n");
    push_text(&mut code, "}\n");
    proof {
        assert(code@ =~= ts_text(name@, rpc.module_id, rpc.method_id, field_views(fields@)));
    }
    code
}

/// The TypeScript files for the structs that are the request or response
/// type of an RPC method, in order: each named `<struct>.ts`, built by
/// `ts_text` from the first such method and the struct's fields with their
/// TypeScript types.
pub open spec fn ts_files_spec(structs: Seq<StructShape>, rpcs: Seq<RpcSpec>) -> Seq<(Seq<char>, Seq<char>)>
    decreases structs.len(),
{
    if structs.len() == 0 {
        seq![]
    } else {
        let rest = ts_files_spec(structs.drop_last(), rpcs);
        let s = structs.last();
        match rpc_for_struct(rpcs, s.name@) {
            Some(i) => rest.push(
                (
                    s.name@ + ".ts"@,
                    ts_text(
                        s.name@,
                        rpcs[i].module_id,
                        rpcs[i].method_id,
                        Seq::new(s.fields@.len(), |k: int| (s.fields@[k].name@, ts_type(s.fields@[k].ty))),
                    ),
                ),
            ),
            None => rest,
        }
    }
}

/// The files of `ts_files_spec`, each as its file name and its text.
pub fn generate_ts_files(structs: &Vec<StructShape>, rpcs: &Vec<RpcInfo>) -> (r: Vec<(String, String)>)
    ensures
        field_views(r@) == ts_files_spec(structs@, rpc_views(rpcs@)),
{
    let ghost rv = rpc_views(rpcs@);
    let mut out: Vec<(String, String)> = Vec::new();
    let mut i: usize = 0;
    while i < structs.len()
        invariant
            i <= structs@.len(),
            rv == rpc_views(rpcs@),
            field_views(out@) == ts_files_spec(structs@.take(i as int), rv),
        decreases structs@.len() - i,
    {
        let s = &structs[i];
        proof {
            assert(structs@.take(i + 1).drop_last() =~= structs@.take(i as int));
            assert(structs@.take(i + 1).last() == structs@[i as int]);
        }
        match find_rpc_for(rpcs, &s.name) {
            Some(k) => {
                proof {
                    assert(rv[k as int] == rpcs@[k as int]@);
                }
                let mut fields: Vec<(String, String)> = Vec::new();
                let mut j: usize = 0;
                while j < s.fields.len()
                    invariant
                        j <= s.fields@.len(),
                        field_views(fields@) == Seq::new(j as nat, |q: int| (s.fields@[q].name@, ts_type(s.fields@[q].ty))),
                    decreases s.fields@.len() - j,
                {
                    let f = &s.fields[j];
                    let pair = (f.name.clone(), rust_type_to_ts(&f.ty));
                    let ghost before = field_views(fields@);
                    fields.push(pair);
                    proof {
                        assert(field_views(fields@) =~= before.push((f.name@, ts_type(f.ty))));
                        assert(s.fields@[j as int] == *f);
                    }
                    j = j + 1;
                    proof {
                        assert(field_views(fields@) =~= Seq::new(j as nat, |q: int| (s.fields@[q].name@, ts_type(s.fields@[q].ty))));
                    }
                }
                let code = ts_source(s.name.as_str(), &rpcs[k], &fields);
                let mut file_name = s.name.clone();
                push_text(&mut file_name, ".ts");
                let ghost before = field_views(out@);
                out.push((file_name, code));
                proof {
                    assert(field_views(out@) =~= before.push((s.name@ + ".ts"@, code@)));
                }
            },
            None => {},
        }
        i = i + 1;
    }
    proof {
        assert(structs@.take(structs@.len() as int) =~= structs@);
    }
    out
}

// ---------------------------------------------------------------------------
// Reading the structs of a source file
// ---------------------------------------------------------------------------

/// An item of a source file as the generator reads it: a struct, with its
/// name and named fields, or any other item.
#[derive(Debug)]
pub enum ItemShape {
    Struct(StructShape),
    Other,
}

#[verifier::external_type_specification]
#[verifier::external_body]
pub struct ExSynItem(syn::Item);

#[verifier::external_type_specification]
#[verifier::external_body]
pub struct ExSynType(syn::Type);

/// The items that `syn::parse_file` finds in `src`, one for one; `None` if
/// `src` does not parse.
pub uninterp spec fn parsed_items(src: Seq<char>) -> Option<Seq<ItemShape>>;

/// Converts a `syn::Type` into its shape: a path becomes its last segment's
/// name with the first type in its angle brackets, anything else `Other`.
/// A conversion used by `parse_items`; it claims nothing of its own.
#[verifier::external_body]
fn type_shape_of(ty: &syn::Type) -> (r: RustType) {
    match ty {
        syn::Type::Path(p) => {
            let seg = p.path.segments.last().unwrap();
            let arg = match &seg.arguments {
                syn::PathArguments::AngleBracketed(a) => match a.args.first() {
                    Some(syn::GenericArgument::Type(t)) => Some(Box::new(type_shape_of(t))),
                    _ => None,
                },
                _ => None,
            };
            RustType::Path { ident: seg.ident.to_string(), arg }
        },
        _ => RustType::Other,
    }
}

/// Converts a `syn::Item` into its shape: a struct with its name and named
/// fields (none for a tuple or unit struct), anything else `Other`. A
/// conversion used by `parse_items`; it claims nothing of its own.
#[verifier::external_body]
fn item_shape_of(item: &syn::Item) -> (r: ItemShape) {
    match item {
        syn::Item::Struct(st) => ItemShape::Struct(StructShape {
            name: st.ident.to_string(),
            fields: match &st.fields {
                syn::Fields::Named(n) => n.named.iter().map(
                    |f| FieldShape { name: f.ident.as_ref().unwrap().to_string(), ty: type_shape_of(&f.ty) },
                ).collect(),
                _ => Vec::new(),
            },
        }),
        _ => ItemShape::Other,
    }
}

/// Parses `src` with `syn::parse_file` and gives its items, each converted
/// by `item_shape_of`, in order. The contract names the result
/// `parsed_items`: what syn's parser makes of a file is not stated here.
#[verifier::external_body]
pub fn parse_items(src: &str) -> (r: Option<Vec<ItemShape>>)
    ensures
        match r {
            Some(v) => parsed_items(src@) == Some(v@),
            None => parsed_items(src@) is None,
        },
{
    match syn::parse_file(src) {
        Ok(file) => Some(file.items.iter().map(item_shape_of).collect()),
        Err(_) => None,
    }
}

/// The structs among `items`, in order.
pub open spec fn structs_of(items: Seq<ItemShape>) -> Seq<StructShape>
    decreases items.len(),
{
    if items.len() == 0 {
        seq![]
    } else {
        let head: Seq<StructShape> = match items[0] {
            ItemShape::Struct(st) => seq![st],
            ItemShape::Other => seq![],
        };
        head + structs_of(items.drop_first())
    }
}

/// The structs among `items`; see `structs_of`.
pub fn struct_items(items: Vec<ItemShape>) -> (r: Vec<StructShape>)
    ensures
        r@ == structs_of(items@),
{
    let ghost all = items@;
    let mut items = items;
    let mut out: Vec<StructShape> = Vec::new();
    while items.len() > 0
        invariant
            out@ + structs_of(items@) == structs_of(all),
        decreases items@.len(),
    {
        let ghost before = items@;
        let item = items.remove(0);
        proof {
            assert(items@ =~= before.drop_first());
        }
        match item {
            ItemShape::Struct(st) => {
                let ghost o = out@;
                out.push(st);
                proof {
                    assert(out@ + structs_of(items@) =~= o + structs_of(before));
                }
            },
            ItemShape::Other => {
                proof {
                    assert(out@ + structs_of(items@) =~= out@ + structs_of(before));
                }
            },
        }
    }
    proof {
        assert(out@ + structs_of(items@) =~= out@);
    }
    out
}

/// The TypeScript files for the request and response types of `rpcs` that
/// the source text `src` declares; none if it does not parse.
pub fn ts_files_of_source(src: &str, rpcs: &Vec<RpcInfo>) -> (r: Vec<(String, String)>)
    ensures
        field_views(r@) == match parsed_items(src@) {
            Some(items) => ts_files_spec(structs_of(items), rpc_views(rpcs@)),
            None => seq![],
        },
{
    match parse_items(src) {
        Some(items) => {
            let structs = struct_items(items);
            generate_ts_files(&structs, rpcs)
        },
        None => {
            let out: Vec<(String, String)> = Vec::new();
            assert(field_views(out@) =~= seq![]);
            out
        },
    }
}

} // verus!

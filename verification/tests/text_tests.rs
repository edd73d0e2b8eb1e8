use atlas::cli::{command_words, console_player, parse_command, Command, CommandFault};
use atlas::codegen::{collect_rpcs_from_source, generate_ts_files, module_id_to_u16, parse_items, rust_type_to_ts, struct_items,
    ts_files_of_source, ts_source, FieldShape, ItemShape, RpcInfo, RustType, StructShape};
use atlas::player::PlayerAct;
use atlas::table::Table;

#[test]
fn console_commands() {
    assert_eq!(parse_command("quit"), Command::Quit);
    assert_eq!(parse_command("  show \t"), Command::Show);
    assert_eq!(parse_command("sit 1 2000"), Command::Sit { seat: 1, balance: 2000 });
    assert_eq!(parse_command("sit x 2000"), Command::Invalid(CommandFault::Seat));
    assert_eq!(parse_command("sit 1 -5"), Command::Invalid(CommandFault::Balance));
    assert_eq!(parse_command("sit 1"), Command::Unknown);
    assert_eq!(parse_command("start"), Command::Start);
    assert_eq!(parse_command("quick"), Command::Quick);
    assert_eq!(parse_command("act fold"), Command::Act(PlayerAct::Fold));
    assert_eq!(parse_command("act   call"), Command::Act(PlayerAct::Call));
    assert_eq!(parse_command("act check"), Command::Act(PlayerAct::Check));
    assert_eq!(parse_command("act bet 50"), Command::Act(PlayerAct::Bet(50)));
    assert_eq!(parse_command("act bet +50"), Command::Act(PlayerAct::Bet(50)));
    assert_eq!(parse_command("act raise 18446744073709551615"), Command::Act(PlayerAct::Raise(u64::MAX)));
    assert_eq!(parse_command("act raise 18446744073709551616"), Command::Invalid(CommandFault::Amount));
    assert_eq!(parse_command("act raise abc"), Command::Invalid(CommandFault::Amount));
    assert_eq!(parse_command("act bet +"), Command::Invalid(CommandFault::Amount));
    assert_eq!(parse_command("act shove"), Command::Unknown);
    assert_eq!(parse_command(""), Command::Unknown);
    assert_eq!(parse_command("show me"), Command::Unknown);
    assert_eq!(CommandFault::Amount.message(), "invalid raise amount");
    assert_eq!(CommandFault::Seat.message(), "invalid seat");
    assert_eq!(CommandFault::Balance.message(), "invalid balance");
    assert_eq!(command_words("  act \u{3000}bet  5 "), vec!["act", "bet", "5"]);
}

#[test]
fn console_players() {
    let p = console_player(3, 2000);
    assert_eq!(p.nickname, "player003");
    assert_eq!(p.balance, 2000);
    assert_eq!(p.id.chars().count(), 26);
    assert!(!p.is_active);
}

#[test]
fn module_ids_by_name() {
    assert_eq!(module_id_to_u16("AtlasModuleId::Auth"), 1);
    assert_eq!(module_id_to_u16("AtlasModuleId::Chat"), 2);
    assert_eq!(module_id_to_u16("AtlasModuleId::Holdem"), 3);
    assert_eq!(module_id_to_u16("AtlasModuleId::Other"), 0);
    assert_eq!(module_id_to_u16(""), 0);
}

const SOURCE: &str = "use x;\n\natlas_rpc_module! {\n    module auth_method {\n        ModuleId = AtlasModuleId::Auth;\n        RegisterRpc = (1, RegisterReq, RegisterResp),\n        BasicAuthRpc = (2, BasicAuthReq, AuthResp),\n    }\n}\n\natlas_rpc_module! {\n    module holdem_method {\n        ModuleId = AtlasModuleId::Holdem;\r\n        SitTableRpc = ( 3 ,SitTableReq, SitTableResp ),,\n        BadRpc = (x, A, B),\n        NotRpc = (1, A),\n        Two = Eq = (1, A, B),\n    }\n}\n";

#[test]
fn collects_rpcs_from_source() {
    let rpcs = collect_rpcs_from_source(SOURCE);
    let got: Vec<(u16, u16, &str, &str, &str)> = rpcs
        .iter()
        .map(|r| (r.module_id, r.method_id, r._rpc_name.as_str(), r.request.as_str(), r.response.as_str()))
        .collect();
    assert_eq!(
        got,
        vec![
            (1, 1, "RegisterRpc", "RegisterReq", "RegisterResp"),
            (1, 2, "BasicAuthRpc", "BasicAuthReq", "AuthResp"),
            (3, 3, "SitTableRpc", "SitTableReq", "SitTableResp"),
            (3, 0, "BadRpc", "A", "B"),
        ]
    );
    assert!(collect_rpcs_from_source("no macro here").is_empty());
    assert!(collect_rpcs_from_source("atlas_rpc_module! without braces").is_empty());
}

fn path(ident: &str, arg: Option<RustType>) -> RustType {
    RustType::Path { ident: ident.to_string(), arg: arg.map(Box::new) }
}

#[test]
fn typescript_types() {
    assert_eq!(rust_type_to_ts(&path("String", None)), "string");
    assert_eq!(rust_type_to_ts(&path("u64", None)), "number");
    assert_eq!(rust_type_to_ts(&path("bool", None)), "boolean");
    assert_eq!(rust_type_to_ts(&path("Option", Some(path("u8", None)))), "number | null");
    assert_eq!(rust_type_to_ts(&path("Option", None)), "any | null");
    assert_eq!(rust_type_to_ts(&path("Vec", Some(path("String", None)))), "string[]");
    assert_eq!(rust_type_to_ts(&path("Vec", None)), "any[]");
    assert_eq!(rust_type_to_ts(&path("Vec", Some(path("Option", Some(path("String", None)))))), "string | null[]");
    assert_eq!(rust_type_to_ts(&path("HashMap", None)), "any");
    assert_eq!(rust_type_to_ts(&RustType::Other), "any");
}

#[test]
fn typescript_source() {
    let rpc = RpcInfo {
        module_id: 3,
        method_id: 3,
        _rpc_name: "SitTableRpc".to_string(),
        request: "SitTableReq".to_string(),
        response: "SitTableResp".to_string(),
    };
    let fields = vec![("table_id".to_string(), "string".to_string()), ("buy_in".to_string(), "number".to_string())];
    let expected = "import {WirePayload} from \"db://assets/scripts/wire/base/Message\";\n\n\
export interface SitTableReqProps {\n    table_id: string;\n    buy_in: number;\n}\n\n\
export class SitTableReq extends WirePayload{\n    static readonly METHOD = 3 << 16 | 3;\n\n    table_id: string;\n    buy_in: number;\n\n    \
constructor(\n        props: SitTableReqProps\n    ) {\n        super();\n        this.table_id = props.table_id;\n        this.buy_in = props.buy_in;\n    }\n}\n";
    assert_eq!(ts_source("SitTableReq", &rpc, &fields), expected);
}

#[test]
fn typescript_files_for_rpc_types_only() {
    let rpcs = collect_rpcs_from_source(SOURCE);
    let structs = vec![
        StructShape { name: "Unrelated".to_string(), fields: vec![] },
        StructShape {
            name: "AuthResp".to_string(),
            fields: vec![FieldShape { name: "ok".to_string(), ty: path("bool", None) }],
        },
    ];
    let files = generate_ts_files(&structs, &rpcs);
    assert_eq!(files.len(), 1);
    assert_eq!(files[0].0, "AuthResp.ts");
    assert!(files[0].1.contains("static readonly METHOD = 1 << 16 | 2;"));
    assert!(files[0].1.contains("    ok: boolean;\n"));
}

#[test]
fn renders_an_empty_table() {
    let t = Table::new_six(10, 20);
    let text = t.render();
    let lines: Vec<&str> = text.split('\n').collect();
    assert_eq!(lines[0], "");
    assert_eq!(lines[1], "=".repeat(80));
    assert_eq!(lines[2], format!("TABLE ID: {} | HAND ID: ", t.id));
    assert_eq!(lines[3], "STATE: Waiting | STREET: PreFlop");
    assert_eq!(lines[5], "POT: $0 | CURRENT BET:$0 | BLIND_AMOUNT :$(10/20)");
    assert_eq!(lines[8], "Community Cards: ");
    assert_eq!(lines[10], "             [0]  ( Empty )");
    assert_eq!(lines[15], "             [5]  ( Empty )");
    assert_eq!(lines[17], "command: ");
    assert!(text.ends_with("<raise amount>;]\n"));
}

#[test]
fn renders_a_seated_player() {
    let mut t = Table::new_six(10, 20);
    t.sit(0, atlas::service::new_seated_player("a".to_string(), "alice".to_string(), 2000)).unwrap();
    t.sit(1, atlas::service::new_seated_player("b".to_string(), "bob".to_string(), 2000)).unwrap();
    t.start().unwrap();
    let text = t.render();
    let line = text.split('\n').nth(10).unwrap();
    assert!(line.starts_with(" [*][ ][S]   [0]: alice \u{221a} [        ]  [  1990] [\u{d7}] [    10]   hand_cards:"));
    assert!(line.ends_with("  rank_cards:None"));
}

const STRUCTS: &str = "use serde::Serialize;\n\n#[derive(Serialize)]\npub struct AuthResp {\n    pub ok: bool,\n    pub note: Option<Vec<String>>,\n    pub extra: (u8, u8),\n}\n\npub struct Unrelated(u8);\n\nfn helper() {}\n";

#[test]
fn parses_the_items_of_a_source_file() {
    let items = parse_items(STRUCTS).unwrap();
    assert_eq!(items.len(), 4);
    assert!(matches!(items[0], ItemShape::Other));
    assert!(matches!(items[3], ItemShape::Other));
    match &items[1] {
        ItemShape::Struct(st) => {
            assert_eq!(st.name, "AuthResp");
            assert_eq!(st.fields.len(), 3);
            assert_eq!(st.fields[1].name, "note");
            assert_eq!(rust_type_to_ts(&st.fields[1].ty), "string[] | null");
            assert!(matches!(st.fields[2].ty, RustType::Other));
        }
        ItemShape::Other => panic!("expected a struct"),
    }
    match &items[2] {
        ItemShape::Struct(st) => {
            assert_eq!(st.name, "Unrelated");
            assert!(st.fields.is_empty());
        }
        ItemShape::Other => panic!("expected a struct"),
    }
    assert!(parse_items("pub struct {").is_none());
    let structs = struct_items(items);
    assert_eq!(structs.len(), 2);
    assert_eq!(structs[0].name, "AuthResp");
    assert_eq!(structs[1].name, "Unrelated");
}

#[test]
fn typescript_files_from_source_text() {
    let rpcs = collect_rpcs_from_source(SOURCE);
    let files = ts_files_of_source(STRUCTS, &rpcs);
    assert_eq!(files.len(), 1);
    assert_eq!(files[0].0, "AuthResp.ts");
    assert!(files[0].1.contains("static readonly METHOD = 1 << 16 | 2;"));
    assert!(files[0].1.contains("    ok: boolean;\n"));
    assert!(files[0].1.contains("    note: string[] | null;\n"));
    assert!(files[0].1.contains("    extra: any;\n"));
    assert!(ts_files_of_source("pub struct {", &rpcs).is_empty());
}

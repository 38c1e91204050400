use graphdb::client::Client;
use graphdb::codec::{Command, Transaction};
use graphdb::config::{Config, DiskFormat};
use graphdb::executor::{execute, handle, replay};
use graphdb::json::ent_to_json;
use graphdb::space::{Node, Space, StoreError};

fn id_of(reply: &[u8]) -> usize {
    let mut b = [0u8; 8];
    b.copy_from_slice(&reply[..8]);
    u64::from_le_bytes(b) as usize
}

fn text_of(reply: &[u8]) -> String {
    String::from_utf8(reply[8..].to_vec()).unwrap()
}

fn run(space: &mut Space, cmd: Command, obj: usize, key: &str, val: &str, othr: usize) -> Vec<u8> {
    execute(space, &Transaction::new(cmd, obj, key.to_owned(), val.to_owned(), othr))
}

#[test]
fn scenario_create_set_get_link() {
    let mut s = Space::new();
    let r = run(&mut s, Command::Create, 0, "", "", 0);
    assert_eq!(r, vec![1, 0, 0, 0, 0, 0, 0, 0]);
    let r = run(&mut s, Command::SetValue, 1, "name", "amit", 0);
    let amit = id_of(&r);
    assert_eq!(text_of(&r), "ok");
    assert_eq!(amit, 2);
    let r = run(&mut s, Command::Get, 1, "name", "", 0);
    assert_eq!((id_of(&r), text_of(&r)), (amit, "amit".to_owned()));
    let r = run(&mut s, Command::Create, 0, "", "", 0);
    assert_eq!(r, vec![3, 0, 0, 0, 0, 0, 0, 0]);
    let r = run(&mut s, Command::Link, 1, "child", "", 3);
    assert_eq!((id_of(&r), text_of(&r)), (0, "ok".to_owned()));
    let r = run(&mut s, Command::Get, 1, "child", "", 0);
    assert_eq!((id_of(&r), text_of(&r)), (3, "{}".to_owned()));
    let r = run(&mut s, Command::Get, 1, "missing", "", 0);
    assert_eq!((id_of(&r), text_of(&r)), (0, "null".to_owned()));
}

#[test]
fn interning_shares_value_nodes() {
    let mut s = Space::new();
    let o1 = s.create();
    let o2 = s.create();
    let a = s.set(o1, "k1", "x").unwrap();
    let b = s.set(o2, "k2", "x").unwrap();
    assert_eq!(a, b);
    assert_eq!(s.get(o1, "k1").unwrap().0, a);
    assert_eq!(s.get(o2, "k2").unwrap().0, a);
    let c = s.set(o1, "k1", "y").unwrap();
    assert_ne!(c, a);
    assert_eq!(s.get(o1, "k1").unwrap().0, c);
    assert_eq!(s.nodes.len(), 4);
}

#[test]
fn path_write_then_read() {
    let mut s = Space::new();
    let o = run(&mut s, Command::Create, 0, "", "", 0);
    let o = id_of(&o);
    let r = run(&mut s, Command::SetValue, o, "a.b", "v", 0);
    assert_eq!(text_of(&r), "fail");
    assert_eq!(s.nodes.len(), 1);

    let mut s = Space::new();
    let o = id_of(&run(&mut s, Command::Create, 0, "", "", 0));
    let a = id_of(&run(&mut s, Command::Create, 0, "", "", 0));
    let r = run(&mut s, Command::Link, o, "a", "", a);
    assert_eq!(text_of(&r), "ok");
    let r = run(&mut s, Command::SetValue, o, "a.b", "v", 0);
    assert_eq!(text_of(&r), "ok");
    let v = id_of(&r);
    let r = run(&mut s, Command::Get, o, "a.b", "", 0);
    assert_eq!((id_of(&r), text_of(&r)), (v, "v".to_owned()));
    match s.get(v, "") {
        Some((_, Node::Value(val))) => assert_eq!(val.val, "v"),
        _ => panic!("not a value node"),
    }
}

#[test]
fn broken_paths() {
    let mut s = Space::new();
    let o = s.create();
    let a = s.create();
    s.link(o, "a", a).unwrap();
    s.set(a, "s", "str").unwrap();
    // missing segment after a resolved entity: the last resolved id
    let r = run(&mut s, Command::Get, o, "a.nope.x", "", 0);
    assert_eq!((id_of(&r), text_of(&r)), (a, "null".to_owned()));
    // a value in the middle of the path
    let r = run(&mut s, Command::Get, o, "a.s.x", "", 0);
    let sid = s.get(a, "s").unwrap().0;
    assert_eq!((id_of(&r), text_of(&r)), (sid, "null".to_owned()));
    let r = run(&mut s, Command::SetValue, o, "a.s.x", "v", 0);
    assert_eq!((id_of(&r), text_of(&r)), (sid, "fail".to_owned()));
    let r = run(&mut s, Command::Link, 99, "k", "", 1);
    assert_eq!((id_of(&r), text_of(&r)), (0, "fail".to_owned()));
    // dangling links are kept, and read as missing
    let r = run(&mut s, Command::Link, o, "ghost", "", 77);
    assert_eq!(text_of(&r), "ok");
    assert!(s.get(o, "ghost").is_none());
}

#[test]
fn store_errors() {
    let mut s = Space::new();
    let o = s.create();
    let v = s.set(o, "k", "x").unwrap();
    assert_eq!(s.set(42, "k", "x"), Err(StoreError::NoSuchObject));
    assert_eq!(s.set(v, "k", "x"), Err(StoreError::NotAnEntity));
    assert_eq!(s.link(0, "k", 1), Err(StoreError::NoSuchObject));
    assert_eq!(s.link(v, "k", 1), Err(StoreError::NotAnEntity));
    assert!(s.get(0, "").is_none());
    assert_eq!(s.get(o, "").unwrap().0, o);
    assert!(s.get(v, "k").is_none());
}

#[test]
fn json_rendering() {
    let mut s = Space::new();
    let o = s.create();
    let c = s.create();
    s.set(o, "name", "say \"hi\"\n").unwrap();
    s.link(o, "child", c).unwrap();
    s.set(c, "age", "5").unwrap();
    s.link(o, "gone", 50).unwrap();
    let r = run(&mut s, Command::Get, o, "", "", 0);
    assert_eq!(id_of(&r), o);
    assert_eq!(text_of(&r), "{\"name\":\"say \\\"hi\\\"\\n\",\"child\": {\"age\":\"5\"},\"gone\": null}");
    let r = run(&mut s, Command::GetRaw, o, "", "", 0);
    assert_eq!(text_of(&r), format!("{{\"name\":\"say \\\"hi\\\"\\n\",\"child\": {},\"gone\": null}}", c));
    let mut seen = vec![];
    match s.get(c, "") {
        Some((_, Node::Entity(e))) => assert_eq!(ent_to_json(&e.props, &s, false, &mut seen), "{\"age\":\"5\"}"),
        _ => panic!("not an entity"),
    }
}

#[test]
fn cycles_are_cut() {
    let mut s = Space::new();
    let a = s.create();
    let b = s.create();
    s.link(a, "next", b).unwrap();
    s.link(b, "next", a).unwrap();
    let r = run(&mut s, Command::Get, a, "", "", 0);
    assert_eq!(text_of(&r), format!("{{\"next\": {{\"next\": {}}}}}", a));
    let r = run(&mut s, Command::Get, a, "next.next.next", "", 0);
    assert_eq!(id_of(&r), b);
}

#[test]
fn replay_is_deterministic() {
    let log = vec![
        Transaction::new(Command::Create, 0, String::new(), String::new(), 0),
        Transaction::new(Command::SetValue, 1, "name".to_owned(), "amit".to_owned(), 0),
        Transaction::new(Command::Create, 0, String::new(), String::new(), 0),
        Transaction::new(Command::Link, 1, "child".to_owned(), String::new(), 3),
        Transaction::new(Command::SetValue, 1, "child.age".to_owned(), "24".to_owned(), 0),
        Transaction::new(Command::Get, 1, "child".to_owned(), String::new(), 0),
    ];
    let mut a = Space::new();
    let mut b = Space::new();
    replay(&mut a, &log);
    replay(&mut b, &log);
    assert_eq!(format!("{:?}", a.nodes), format!("{:?}", b.nodes));
    assert_eq!(a.reverse, b.reverse);
    assert_eq!(a.nodes.len(), 4);
    let r = run(&mut a, Command::Get, 1, "", "", 0);
    assert_eq!(text_of(&r), "{\"name\":\"amit\",\"child\": {\"age\":\"24\"}}");
}

#[test]
fn handle_rejects_bad_bodies() {
    let mut s = Space::new();
    assert!(handle(&mut s, vec![8]).is_err());
    assert_eq!(s.nodes.len(), 0);
    let r = handle(&mut s, vec![0]).unwrap();
    assert_eq!(r, vec![1, 0, 0, 0, 0, 0, 0, 0]);
}

#[test]
fn client() {
    let db = Client::new("localhost:4000");
    let mut server = Space::new();
    let obj = db.create(&mut server);
    println!("obj {}", obj);

    let sub_obj = db.create(&mut server);
    println!("sub_obj {:?}", sub_obj);
    println!("set {:?}", db.set(&mut server, sub_obj, "age", "55"));
    println!("set {:?}", db.set(&mut server, sub_obj, "name", "timothy \"the greate\" bourn"));

    println!("link {:?}", db.link(&mut server, obj, "child", sub_obj));

    let got = db.get_str(&mut server, obj, "child");
    println!("get {:?}", got);
    assert_eq!(db.address(), "localhost:4000");
    assert_eq!(got, (sub_obj, "{\"age\":\"55\",\"name\":\"timothy \\\"the greate\\\" bourn\"}".to_owned()));
    assert_eq!(db.get_usize(&mut server, sub_obj, "age").1, "3");
    assert_eq!(db.get_obj(&mut server, sub_obj).0, sub_obj);
}

#[test]
fn fetch() {
    let db = Client::new("localhost:4000");
    let mut server = Space::new();
    let got = db.get_str(&mut server, 1, "achivements.0");
    println!("{:?}", got);
    assert_eq!(got, (0, "null".to_owned()));
}

enum Json {
    Str(&'static str),
    Num(u64),
    Bool(bool),
    Arr(Vec<Json>),
    Obj(Vec<(&'static str, Json)>),
}

fn encode_json(obj: &Json, db: &Client, server: &mut Space) -> String {
    match obj {
        Json::Str(s) => s.to_string(),
        Json::Num(n) => n.to_string(),
        Json::Bool(b) => b.to_string(),
        Json::Arr(items) => {
            let dbarr = db.create(server);
            for (i, val) in items.iter().enumerate() {
                let v = encode_json(val, db, server);
                let key = format!("{}", i);
                match val {
                    Json::Arr(_) | Json::Obj(_) => db.link(server, dbarr, key.as_str(), v.parse::<usize>().unwrap()),
                    _ => db.set(server, dbarr, key.as_str(), v.as_str()),
                };
            }
            dbarr.to_string()
        }
        Json::Obj(fields) => {
            let dbobj = db.create(server);
            for (key, val) in fields {
                let v = encode_json(val, db, server);
                match val {
                    Json::Arr(_) | Json::Obj(_) => db.link(server, dbobj, key, v.parse::<usize>().unwrap()),
                    _ => db.set(server, dbobj, key, v.as_str()),
                };
            }
            dbobj.to_string()
        }
    }
}

#[test]
fn save_json() {
    let db = Client::new("localhost:4000");
    let mut server = Space::new();
    let val = Json::Obj(vec![
        ("name", Json::Str("amit")),
        ("proffesion", Json::Str("developer \"lol\"\t\n\"kk\"")),
        ("age", Json::Num(24)),
        ("stats", Json::Obj(vec![("employment", Json::Str("null")), ("thebest", Json::Bool(true))])),
        ("achivements", Json::Arr(vec![
            Json::Obj(vec![("title", Json::Str("somedb")), ("type", Json::Str("database")), ("hits", Json::Num(45312))]),
            Json::Obj(vec![("title", Json::Str("aob")), ("type", Json::Str("videogame / 2d dungeon \"crawler\" ")), ("hits", Json::Num(100234))]),
            Json::Obj(vec![("title", Json::Str("sequencetree")), ("type", Json::Str("collection")), ("hits", Json::Num(7105421))]),
        ])),
    ]);
    let val2 = Json::Obj(vec![
        ("name", Json::Str("advert one")),
        ("keywords", Json::Str("abc def ghi jkl mno")),
        ("timestamp", Json::Num(442314)),
        ("stats", Json::Obj(vec![("clicks", Json::Num(43304)), ("impr", Json::Num(786)), ("conv", Json::Num(112))])),
    ]);

    let id = encode_json(&val, &db, &mut server);
    println!("object id = {}", id);
    let id: usize = id.parse().unwrap();
    assert_eq!(db.get_str(&mut server, id, "achivements.1.title").1, "aob");
    assert_eq!(db.get_str(&mut server, id, "stats.thebest").1, "true");
    assert_eq!(db.get_str(&mut server, id, "age").1, "24");
    let id2: usize = encode_json(&val2, &db, &mut server).parse().unwrap();
    assert_eq!(db.get_str(&mut server, id2, "stats.clicks").1, "43304");
    assert_eq!(db.get_str(&mut server, id2, "name").1, "advert one");
}

#[test]
fn default_config() {
    let c = Config::default();
    assert_eq!(c.file_name, "./db.bin");
    assert_eq!(c.file_format, DiskFormat::Bin);
    assert_eq!(c.port, 4000);
    assert_eq!(c.threads, 4);
}

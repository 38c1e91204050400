use graphdb::bytes::{read_string, read_usize, write_string, write_usize};
use graphdb::codec::{Command, DecodeError, Transaction};
use graphdb::log::{frame, load_transactions, log_record};

#[test]
fn serialize() {
    let t = Transaction::new(Command::from(3), 15453332589748683533, "child".to_owned(), String::new(), 8693387624441552404);
    let nt = t.to_bytes();
    let gt = Transaction::from(nt);

    println!("t = {:?}\ngt = {:?}", t, gt);

    let gt = gt.unwrap();
    assert_eq!(gt.cmd, Command::Link);
    assert_eq!(gt.obj, 15453332589748683533);
    assert_eq!(gt.key, "child");
    assert_eq!(gt.val, "");
    assert_eq!(gt.othr, 8693387624441552404);
}

fn round_trip(t: Transaction) {
    let back = Transaction::from(t.to_bytes()).unwrap();
    assert_eq!(back.cmd, t.cmd);
    assert_eq!(back.obj, t.obj);
    assert_eq!(back.key, t.key);
    assert_eq!(back.val, t.val);
    assert_eq!(back.othr, t.othr);
}

#[test]
fn round_trip_every_command() {
    round_trip(Transaction::new(Command::Create, 0, String::new(), String::new(), 0));
    round_trip(Transaction::new(Command::SetValue, 7, "a.b".to_owned(), "välue \"q\"".to_owned(), 0));
    round_trip(Transaction::new(Command::SetValue, 7, String::new(), String::new(), 0));
    round_trip(Transaction::new(Command::Get, 1, "name".to_owned(), String::new(), 0));
    round_trip(Transaction::new(Command::Get, 1, String::new(), String::new(), 0));
    round_trip(Transaction::new(Command::Link, 1, "child".to_owned(), String::new(), 2));
    round_trip(Transaction::new(Command::GetRaw, 3, "x.y.z".to_owned(), String::new(), 0));
}

#[test]
fn create_is_one_byte() {
    let t = Transaction::new(Command::Create, 0, String::new(), String::new(), 0);
    assert_eq!(t.to_bytes(), vec![0u8]);
}

#[test]
fn encoding_layout() {
    let t = Transaction::new(Command::SetValue, 258, "ab".to_owned(), "c".to_owned(), 0);
    let b = t.to_bytes();
    let mut want = vec![1u8, 2, 1, 0, 0, 0, 0, 0, 0, 2, 0, 0, 0, 0, 0, 0, 0, b'a', b'b'];
    want.extend_from_slice(&[1, 0, 0, 0, 0, 0, 0, 0, b'c']);
    want.extend_from_slice(&[0; 8]);
    assert_eq!(b, want);
}

#[test]
fn get_decodes_only_through_key() {
    let mut b = vec![2u8, 5, 0, 0, 0, 0, 0, 0, 0, 1, 0, 0, 0, 0, 0, 0, 0, b'k'];
    let t = Transaction::from(b.clone()).unwrap();
    assert_eq!(t.cmd, Command::Get);
    assert_eq!(t.obj, 5);
    assert_eq!(t.key, "k");
    b.push(99);
    assert!(Transaction::from(b).is_ok());
}

#[test]
fn decode_errors() {
    assert_eq!(Transaction::from(vec![]).unwrap_err(), DecodeError::Truncated);
    assert_eq!(Transaction::from(vec![9]).unwrap_err(), DecodeError::UnknownCommand(9));
    assert_eq!(Transaction::from(vec![1, 0, 0]).unwrap_err(), DecodeError::Truncated);
    let mut b = vec![2u8, 5, 0, 0, 0, 0, 0, 0, 0, 4, 0, 0, 0, 0, 0, 0, 0];
    b.push(b'k');
    assert_eq!(Transaction::from(b).unwrap_err(), DecodeError::Truncated);
    let link = Transaction::new(Command::Link, 1, "k".to_owned(), String::new(), 2).to_bytes();
    assert_eq!(Transaction::from(link[..link.len() - 1].to_vec()).unwrap_err(), DecodeError::Truncated);
}

#[test]
fn command_codes() {
    for n in 0u8..5 {
        assert_eq!(Command::to_u8(&Command::from(n)), n);
    }
    assert_eq!(Command::from(0), Command::Create);
    assert_eq!(Command::from(1), Command::SetValue);
    assert_eq!(Command::from(2), Command::Get);
    assert_eq!(Command::from(3), Command::Link);
    assert_eq!(Command::from(4), Command::GetRaw);
    assert!(Command::Get.is_read() && Command::GetRaw.is_read());
    assert!(!Command::Create.is_read() && !Command::SetValue.is_read() && !Command::Link.is_read());
}

#[test]
fn integers_and_text() {
    assert_eq!(write_usize(0x0102030405060708), vec![8, 7, 6, 5, 4, 3, 2, 1]);
    assert_eq!(read_usize(&[8, 7, 6, 5, 4, 3, 2, 1, 99]), 0x0102030405060708);
    assert_eq!(write_string("é".to_owned()), vec![0xc3, 0xa9]);
    assert_eq!(read_string(&[0xc3, 0xa9]), "é");
    assert_eq!(read_string(&[b'a', 0xff]), "a\u{fffd}");
    assert_eq!(Transaction::UINT_SIZE(), 8);
}

#[test]
fn text_log_line() {
    let t = Transaction::new(Command::SetValue, 12, "name".to_owned(), "amit".to_owned(), 0);
    assert_eq!(t.to_string(), "1,12,\"name\",\"amit\",0\n");
    let l = Transaction::new(Command::Link, 1, "child".to_owned(), String::new(), 20);
    assert_eq!(l.to_string(), "3,1,\"child\",\"\",20\n");
}

#[test]
fn log_records_read_back_in_order() {
    let a = Transaction::new(Command::Create, 0, String::new(), String::new(), 0);
    let b = Transaction::new(Command::SetValue, 1, "k".to_owned(), "v".to_owned(), 0);
    let c = Transaction::new(Command::Link, 1, "l".to_owned(), String::new(), 1);
    let mut file = Vec::new();
    file.extend(log_record(&a));
    file.extend(log_record(&b));
    file.extend(log_record(&c));
    let ts = load_transactions(&file).unwrap();
    assert_eq!(ts.len(), 3);
    assert_eq!(ts[0].cmd, Command::Create);
    assert_eq!(ts[1].val, "v");
    assert_eq!(ts[2].othr, 1);
    // a zero length ends the log, as does a record cut short
    let mut ended = file.clone();
    ended.extend_from_slice(&[0; 8]);
    ended.extend(log_record(&a));
    assert_eq!(load_transactions(&ended).unwrap().len(), 3);
    let cut = &file[..file.len() - 3];
    assert_eq!(load_transactions(cut).unwrap().len(), 2);
    assert_eq!(load_transactions(&[]).unwrap().len(), 0);
    let bad = frame(&vec![7u8]);
    assert_eq!(load_transactions(&bad).unwrap_err(), DecodeError::UnknownCommand(7));
}

#[test]
fn frame_prefixes_length() {
    assert_eq!(frame(&vec![5u8, 6]), vec![2, 0, 0, 0, 0, 0, 0, 0, 5, 6]);
}

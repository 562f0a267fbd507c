use sectora::buffer::{pointer_bytes_of, Buffer};
use sectora::cstructs::{Group, Passwd, Spwd};
use sectora::error::BufferError;
use sectora::message::{ClientMessage, DaemonMessage};
use sectora::nss::{
    answer_end, answer_gr, answer_pw, answer_set, answer_sp, request_for, Call, NssErrno,
    NssStatus, Verdict,
};
use sectora::structs::{Member, Sector, SectorGroup, SectorType};

const BASE: usize = 0x1000;

fn ptr(v: usize) -> Vec<u8> {
    v.to_le_bytes().to_vec()
}

#[test]
fn strings_are_laid_out_one_after_the_other() {
    let mut b = Buffer::new(BASE, 32, false);
    assert_eq!(b.write_string("alice"), Ok(BASE));
    assert_eq!(b.write_string("x"), Ok(BASE + 6));
    assert_eq!(b.write_string(""), Ok(BASE + 8));
    assert_eq!(b.offset(), 9);
    assert_eq!(b.written(), b"alice\0x\0\0".to_vec());
    assert_eq!(b.capacity(), 32);
    assert_eq!(b.base(), BASE);
}

#[test]
fn a_string_that_does_not_fit_is_not_written() {
    let mut b = Buffer::new(BASE, 8, false);
    assert_eq!(b.write_string("alice"), Ok(BASE));
    assert_eq!(b.write_string("bo"), Err(BufferError::OutOfSpace));
    assert_eq!(b.offset(), 6);
    assert_eq!(b.written(), b"alice\0".to_vec());
    assert_eq!(b.write_string("b"), Ok(BASE + 6));
    assert_eq!(b.offset(), 8);
    assert_eq!(b.write_string(""), Err(BufferError::OutOfSpace));
    let mut b = Buffer::new(BASE, 0, false);
    assert_eq!(b.write_string(""), Err(BufferError::OutOfSpace));
}

#[test]
fn a_string_takes_its_bytes_in_utf8() {
    let mut b = Buffer::new(BASE, 8, false);
    assert_eq!(b.write_string("né"), Ok(BASE));
    assert_eq!(b.offset(), 4);
    assert_eq!(b.written(), vec![b'n', 0xc3, 0xa9, 0]);
}

#[test]
fn addresses_as_they_lie_in_memory() {
    let width = std::mem::size_of::<usize>();
    let le = pointer_bytes_of(0x0102, false);
    assert_eq!(le.len(), width);
    assert_eq!(le, 0x0102usize.to_le_bytes().to_vec());
    let be = pointer_bytes_of(0x0102, true);
    assert_eq!(be, 0x0102usize.to_be_bytes().to_vec());
    assert_eq!(pointer_bytes_of(usize::MAX, false), vec![0xff; width]);
}

#[test]
fn a_pointer_array_is_aligned_and_ends_with_null() {
    let width = std::mem::size_of::<usize>();
    let mut b = Buffer::new(BASE, 64, false);
    assert_eq!(b.write_string("ab"), Ok(BASE));
    let at = b.add_pointers(&vec![BASE, BASE + 1]).unwrap();
    assert_eq!(at, BASE + width);
    assert_eq!(b.offset(), 4 * width);
    let mut expected = b"ab\0".to_vec();
    expected.resize(width, 0);
    expected.extend(ptr(BASE));
    expected.extend(ptr(BASE + 1));
    expected.extend(ptr(0));
    assert_eq!(b.written(), expected);
}

#[test]
fn an_aligned_offset_is_not_moved() {
    let width = std::mem::size_of::<usize>();
    let mut b = Buffer::new(BASE, 64, false);
    assert_eq!(b.add_pointers(&vec![]), Ok(BASE));
    assert_eq!(b.offset(), width);
    assert_eq!(b.add_pointers(&vec![7]), Ok(BASE + width));
    assert_eq!(b.offset(), 3 * width);
}

#[test]
fn a_pointer_array_that_does_not_fit_is_not_written() {
    let width = std::mem::size_of::<usize>();
    let mut b = Buffer::new(BASE, 3 * width - 1, false);
    assert_eq!(b.write_string("a"), Ok(BASE));
    assert_eq!(b.add_pointers(&vec![BASE]), Err(BufferError::OutOfSpace));
    assert_eq!(b.offset(), 2);
    assert_eq!(b.written(), b"a\0".to_vec());
    let mut b = Buffer::new(BASE, 3 * width, false);
    assert_eq!(b.write_string("a"), Ok(BASE));
    assert_eq!(b.add_pointers(&vec![BASE]), Ok(BASE + width));
}

#[test]
fn strings_with_their_pointer_array() {
    let width = std::mem::size_of::<usize>();
    let mut b = Buffer::new(BASE, 64, false);
    let names = vec![String::from("bob"), String::from("carol")];
    let at = b.write_vecstr(&names).unwrap();
    assert_eq!(at, BASE + 2 * width);
    let mut expected = b"bob\0carol\0".to_vec();
    expected.resize(2 * width, 0);
    expected.extend(ptr(BASE));
    expected.extend(ptr(BASE + 4));
    expected.extend(ptr(0));
    assert_eq!(b.written(), expected);
    let mut small = Buffer::new(BASE, 6, false);
    assert_eq!(small.write_vecstr(&names), Err(BufferError::OutOfSpace));
    assert_eq!(small.written(), b"bob\0".to_vec());
}

#[test]
fn a_user_record_is_packed() {
    let mut b = Buffer::new(BASE, 256, false);
    let mut pw = Passwd::new();
    assert_eq!(pw.pack_args(&mut b, "alice", 1001, 500, "/home/alice", "/bin/bash"), Ok(()));
    assert_eq!(b.written(), b"alice\0x\0/home/alice\0/bin/bash\0\0".to_vec());
    assert_eq!(
        pw,
        Passwd {
            name: BASE,
            passwd: BASE + 6,
            uid: 1001,
            gid: 500,
            dir: BASE + 8,
            shell: BASE + 20,
            gecos: BASE + 30,
        }
    );
}

#[test]
fn a_user_record_needs_its_exact_size() {
    let need = b"alice\0x\0/home/alice\0/bin/bash\0\0".len();
    let mut b = Buffer::new(BASE, need, false);
    let mut pw = Passwd::new();
    assert_eq!(pw.pack_args(&mut b, "alice", 1001, 500, "/home/alice", "/bin/bash"), Ok(()));
    let mut b = Buffer::new(BASE, need - 1, false);
    let mut pw = Passwd::new();
    assert_eq!(
        pw.pack_args(&mut b, "alice", 1001, 500, "/home/alice", "/bin/bash"),
        Err(BufferError::OutOfSpace)
    );
    assert_eq!(b.written(), b"alice\0x\0/home/alice\0/bin/bash\0".to_vec());
    assert_eq!(pw.uid, 0);
    assert_eq!(pw.gecos, 0);
    assert_eq!(pw.shell, BASE + 20);
}

#[test]
fn ids_keep_their_low_32_bits() {
    let mut b = Buffer::new(BASE, 64, false);
    let mut pw = Passwd::new();
    assert_eq!(pw.pack_args(&mut b, "a", (1 << 32) + 5, u64::MAX, "h", "s"), Ok(()));
    assert_eq!((pw.uid, pw.gid), (5, u32::MAX));
}

#[test]
fn a_shadow_record_is_packed() {
    let mut b = Buffer::new(BASE, 64, false);
    let mut sp = Spwd::new();
    assert_eq!(sp.pack_args(&mut b, "alice", "*"), Ok(()));
    assert_eq!(b.written(), b"alice\0*\0".to_vec());
    assert_eq!(
        sp,
        Spwd {
            namp: BASE,
            pwdp: BASE + 6,
            lstchg: -1,
            min: -1,
            max: -1,
            warn: -1,
            inact: -1,
            expire: -1,
            flag: 0,
        }
    );
    let mut b = Buffer::new(BASE, 7, false);
    let mut sp = Spwd::new();
    assert_eq!(sp.pack_args(&mut b, "alice", "*"), Err(BufferError::OutOfSpace));
    assert_eq!(sp.namp, BASE);
    assert_eq!(sp.lstchg, 0);
}

#[test]
fn a_group_record_is_packed() {
    let width = std::mem::size_of::<usize>();
    let mut b = Buffer::new(BASE, 256, false);
    let mut gr = Group::new();
    let members = vec![String::from("bob"), String::from("carol")];
    assert_eq!(gr.pack_args(&mut b, "rA", 200, &members), Ok(()));
    let strings = b"rA\0x\0bob\0carol\0";
    let start = (strings.len() + width - 1) / width * width;
    let mut expected = strings.to_vec();
    expected.resize(start, 0);
    expected.extend(ptr(BASE + 5));
    expected.extend(ptr(BASE + 9));
    expected.extend(ptr(0));
    assert_eq!(b.written(), expected);
    assert_eq!(gr, Group { name: BASE, passwd: BASE + 3, gid: 200, mem: BASE + start });
    let mut exact = Buffer::new(BASE, expected.len(), false);
    assert_eq!(Group::new().pack_args(&mut exact, "rA", 200, &members), Ok(()));
    let mut small = Buffer::new(BASE, expected.len() - 1, false);
    assert_eq!(
        Group::new().pack_args(&mut small, "rA", 200, &members),
        Err(BufferError::OutOfSpace)
    );
    assert_eq!(small.written(), strings.to_vec());
}

fn pw_reply() -> Option<DaemonMessage> {
    DaemonMessage::from_str("d:pw:alice:1001:500:/home/alice:/bin/bash").ok()
}

#[test]
fn getpwnam_of_alice() {
    let call = Call::GetPwNam(String::from("alice"));
    assert_eq!(request_for(&call).to_string(), "c:pw:name=alice");
    let mut b = Buffer::new(BASE, 256, false);
    let mut pw = Passwd::new();
    let v = answer_pw(&pw_reply(), &mut pw, &mut b);
    assert_eq!(v, Verdict { status: NssStatus::Success, errno: None });
    assert_eq!(v.status.code(), 1);
    assert_eq!(b.written(), b"alice\0x\0/home/alice\0/bin/bash\0\0".to_vec());
    assert_eq!((pw.uid, pw.gid), (1001, 500));
}

#[test]
fn a_buffer_of_four_bytes_is_too_small() {
    let mut b = Buffer::new(BASE, 4, false);
    let mut pw = Passwd::new();
    let v = answer_pw(&pw_reply(), &mut pw, &mut b);
    assert_eq!(v, Verdict { status: NssStatus::TryAgain, errno: Some(NssErrno::Erange) });
    assert_eq!(v.status.code(), -2);
    assert_eq!(b.offset(), 0);
    let mut b = Buffer::new(BASE, 256, false);
    let v = answer_pw(&pw_reply(), &mut pw, &mut b);
    assert_eq!(v.status, NssStatus::Success);
}

#[test]
fn what_is_not_found_and_what_is_not_answered() {
    let mut b = Buffer::new(BASE, 256, false);
    let mut pw = Passwd::new();
    let not_found = DaemonMessage::from_str("d:error:not found").ok();
    let v = answer_pw(&not_found, &mut pw, &mut b);
    assert_eq!(v, Verdict { status: NssStatus::NotFound, errno: Some(NssErrno::Enoent) });
    assert_eq!(v.status.code(), 0);
    let v = answer_pw(&None, &mut pw, &mut b);
    assert_eq!(v, Verdict { status: NssStatus::TryAgain, errno: Some(NssErrno::Eagain) });
    let mut sp = Spwd::new();
    let v = answer_sp(&pw_reply(), &mut sp, &mut b);
    assert_eq!(v.status, NssStatus::NotFound);
    let mut gr = Group::new();
    let v = answer_gr(&None, &mut gr, &mut b);
    assert_eq!(v.status, NssStatus::TryAgain);
    assert_eq!(b.offset(), 0);
    assert_eq!(NssStatus::Unavail.code(), -1);
}

#[test]
fn getspnam_and_getgrgid() {
    let mut b = Buffer::new(BASE, 256, false);
    let mut sp = Spwd::new();
    let reply = DaemonMessage::from_str("d:sp:alice:*").ok();
    assert_eq!(answer_sp(&reply, &mut sp, &mut b).status, NssStatus::Success);
    assert_eq!(b.written(), b"alice\0*\0".to_vec());

    let call = Call::GetGrGid(200);
    assert_eq!(request_for(&call).to_string(), "c:gr:gid=200");
    let reply = Some(DaemonMessage::Gr {
        sector: SectorGroup {
            sector: Sector { id: 200, name: String::from("rA"), sector_type: SectorType::Repo },
            gid: None,
            group: None,
            members: vec![
                Member { id: 1002, login: String::from("bob") },
                Member { id: 1003, login: String::from("carol") },
            ],
        },
    });
    let mut b = Buffer::new(BASE, 256, false);
    let mut gr = Group::new();
    assert_eq!(answer_gr(&reply, &mut gr, &mut b).status, NssStatus::Success);
    assert_eq!(gr.gid, 200);
    assert_eq!(gr.name, BASE);
    assert_eq!(&b.written()[..15], b"rA\0x\0bob\0carol\0");
}

#[test]
fn the_requests_of_the_entry_points() {
    let text = |c: Call| -> String {
        let m: ClientMessage = request_for(&c);
        m.to_string()
    };
    assert_eq!(text(Call::GetPwUid(1002)), "c:pw:uid=1002");
    assert_eq!(text(Call::SetPwEnt(7)), "c:pw:ent=set|7");
    assert_eq!(text(Call::GetPwEnt(7)), "c:pw:ent=get|7");
    assert_eq!(text(Call::EndPwEnt(7)), "c:pw:ent=end|7");
    assert_eq!(text(Call::GetSpNam(String::from("bob"))), "c:sp:name=bob");
    assert_eq!(text(Call::SetSpEnt(7)), "c:sp:ent=set|7");
    assert_eq!(text(Call::GetSpEnt(7)), "c:sp:ent=get|7");
    assert_eq!(text(Call::EndSpEnt(7)), "c:sp:ent=end|7");
    assert_eq!(text(Call::GetGrNam(String::from("teamA"))), "c:gr:name=teamA");
    assert_eq!(text(Call::SetGrEnt(7)), "c:gr:ent=set|7");
    assert_eq!(text(Call::GetGrEnt(7)), "c:gr:ent=get|7");
    assert_eq!(text(Call::EndGrEnt(7)), "c:gr:ent=end|7");
}

#[test]
fn the_status_of_set_and_end() {
    let ok = Some(DaemonMessage::Success);
    let other = Some(DaemonMessage::Error { message: String::from("x") });
    assert_eq!(answer_set(&ok), NssStatus::Success);
    assert_eq!(answer_set(&other), NssStatus::TryAgain);
    assert_eq!(answer_set(&None), NssStatus::TryAgain);
    assert_eq!(answer_end(&ok), NssStatus::Success);
    assert_eq!(answer_end(&other), NssStatus::TryAgain);
    assert_eq!(answer_end(&None), NssStatus::TryAgain);
    assert_eq!(answer_set(&other).code(), -2);
}

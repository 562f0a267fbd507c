use vstd::layout::layout_of_primitives;
use vstd::prelude::*;
use crate::buffer::{
    align_up, Buffer, BufferView, lemma_put_bytes_safe, lemma_put_strings_safe, pointer_array,
    pointer_size, put_pointers, put_strings, total_size,
};
use crate::error::BufferError;
use crate::text::views;

verus! {

broadcast use layout_of_primitives;

/// A user record as the host program reads it: each text field is the address of a
/// C string in the caller's buffer.
#[derive(Debug, Clone, Copy, PartialEq, Eq, Structural)]
pub struct Passwd {
    pub name: usize,
    pub passwd: usize,
    pub uid: u32,
    pub gid: u32,
    pub gecos: usize,
    pub dir: usize,
    pub shell: usize,
}

/// A shadow record as the host program reads it.
#[derive(Debug, Clone, Copy, PartialEq, Eq, Structural)]
pub struct Spwd {
    pub namp: usize,
    pub pwdp: usize,
    pub lstchg: i64,
    pub min: i64,
    pub max: i64,
    pub warn: i64,
    pub inact: i64,
    pub expire: i64,
    pub flag: u64,
}

/// A group record as the host program reads it: `mem` is the address of an array of
/// addresses of C strings, which a null pointer ends.
#[derive(Debug, Clone, Copy, PartialEq, Eq, Structural)]
pub struct Group {
    pub name: usize,
    pub passwd: usize,
    pub gid: u32,
    pub mem: usize,
}

/// An id as the record holds it: its low 32 bits.
pub open spec fn id32(id: u64) -> u32 {
    (id % 0x1_0000_0000) as u32
}

/// The strings of a user record in the order in which they are written: name, the
/// password mark `x`, home directory, shell, and the empty comment field.
pub open spec fn pw_strings(name: Seq<char>, home: Seq<char>, sh: Seq<char>) -> Seq<Seq<char>> {
    seq![name, seq!['x'], home, sh, Seq::empty()]
}

/// The user record after the strings at `addrs` are written: a field whose string
/// was not written stays as it was, and so do the ids unless all were.
pub open spec fn packed_pw(rec: Passwd, addrs: Seq<usize>, id: u64, gid: u64) -> Passwd {
    Passwd {
        name: if addrs.len() > 0 {
            addrs[0]
        } else {
            rec.name
        },
        passwd: if addrs.len() > 1 {
            addrs[1]
        } else {
            rec.passwd
        },
        dir: if addrs.len() > 2 {
            addrs[2]
        } else {
            rec.dir
        },
        shell: if addrs.len() > 3 {
            addrs[3]
        } else {
            rec.shell
        },
        gecos: if addrs.len() > 4 {
            addrs[4]
        } else {
            rec.gecos
        },
        uid: if addrs.len() > 4 {
            id32(id)
        } else {
            rec.uid
        },
        gid: if addrs.len() > 4 {
            id32(gid)
        } else {
            rec.gid
        },
    }
}

/// The strings of a shadow record in the order in which they are written.
pub open spec fn sp_strings(name: Seq<char>, pass: Seq<char>) -> Seq<Seq<char>> {
    seq![name, pass]
}

/// The shadow record after the strings at `addrs` are written. The dates are
/// unset (-1) and there are no flags.
pub open spec fn packed_sp(rec: Spwd, addrs: Seq<usize>) -> Spwd {
    if addrs.len() > 1 {
        Spwd {
            namp: addrs[0],
            pwdp: addrs[1],
            lstchg: -1i64,
            min: -1i64,
            max: -1i64,
            warn: -1i64,
            inact: -1i64,
            expire: -1i64,
            flag: 0,
        }
    } else if addrs.len() > 0 {
        Spwd { namp: addrs[0], ..rec }
    } else {
        rec
    }
}

/// The strings of a group record that are written first: name and password mark.
pub open spec fn gr_strings(name: Seq<char>) -> Seq<Seq<char>> {
    seq![name, seq!['x']]
}

/// What packing a group record comes to: the region and the record after it, and
/// whether all of it was written. The name and the mark are written first, then the
/// member names, then the array of their addresses.
pub open spec fn pack_gr(b: BufferView, rec: Group, name: Seq<char>, id: u64, members: Seq<Seq<char>>) -> (
    BufferView,
    Group,
    bool,
) {
    let (b1, a1) = put_strings(b, gr_strings(name));
    if a1.len() < 1 {
        (b1, rec, false)
    } else if a1.len() < 2 {
        (b1, Group { name: a1[0], ..rec }, false)
    } else {
        let head = Group { name: a1[0], passwd: a1[1], gid: id32(id), ..rec };
        let (b2, a2) = put_strings(b1, members);
        if a2.len() < members.len() {
            (b2, head, false)
        } else {
            match put_pointers(b2, a2) {
                Some(b3) => (
                    b3,
                    Group {
                        mem: (b2.base + align_up(b2.offset, pointer_size() as int)) as usize,
                        ..head
                    },
                    true,
                ),
                None => (b2, head, false),
            }
        }
    }
}

/// The bytes that a group record takes behind the write offset `offset`: the
/// strings, what is passed over to align the array, and the array.
pub open spec fn gr_size(offset: int, name: Seq<char>, members: Seq<Seq<char>>) -> int {
    let strings = total_size(gr_strings(name)) + total_size(members);
    align_up(offset + strings, pointer_size() as int) - offset + (members.len() + 1)
        * pointer_size()
}

impl Passwd {
    /// A record with nothing in it.
    pub fn new() -> (r: Passwd)
        ensures
            r == (Passwd { name: 0, passwd: 0, uid: 0, gid: 0, gecos: 0, dir: 0, shell: 0 }),
    {
        Passwd { name: 0, passwd: 0, uid: 0, gid: 0, gecos: 0, dir: 0, shell: 0 }
    }

    /// Writes the strings of a user record into the buffer and fills the record with
    /// their addresses and the ids. It fails where the strings would end beyond the
    /// buffer, and only then; the buffer is never touched from its new write offset
    /// on.
    pub fn pack_args(
        &mut self,
        buf: &mut Buffer,
        name: &str,
        id: u64,
        gid: u64,
        home: &str,
        sh: &str,
    ) -> (r: Result<(), BufferError>)
        requires
            old(buf)@.wf(),
        ensures
            final(buf)@.wf(),
            final(buf)@ == put_strings(old(buf)@, pw_strings(name@, home@, sh@)).0,
            *final(self) == packed_pw(
                *old(self),
                put_strings(old(buf)@, pw_strings(name@, home@, sh@)).1,
                id,
                gid,
            ),
            r is Err <==> old(buf)@.offset + total_size(pw_strings(name@, home@, sh@)) > old(
                buf,
            )@.data.len(),
            r is Err ==> r == Err::<(), BufferError>(BufferError::OutOfSpace),
            final(buf)@.data.len() == old(buf)@.data.len(),
            old(buf)@.offset <= final(buf)@.offset,
            forall|i: int|
                final(buf)@.offset <= i < final(buf)@.data.len() ==> final(buf)@.data[i] == old(
                    buf,
                )@.data[i],
    {
        proof {
            reveal_strlit("x");
            reveal_strlit("");
            lemma_put_strings_safe(old(buf)@, pw_strings(name@, home@, sh@));
        }
        let mut ss: Vec<String> = Vec::new();
        ss.push(String::from_str(name));
        ss.push(String::from_str("x"));
        ss.push(String::from_str(home));
        ss.push(String::from_str(sh));
        ss.push(String::from_str(""));
        assert(views(ss@) =~= pw_strings(name@, home@, sh@)) by {
            assert(ss@[1]@ =~= seq!['x']);
            assert(ss@[4]@ =~= Seq::<char>::empty());
        }
        let addrs = buf.write_strings(&ss);
        if addrs.len() > 0 {
            self.name = addrs[0];
        }
        if addrs.len() > 1 {
            self.passwd = addrs[1];
        }
        if addrs.len() > 2 {
            self.dir = addrs[2];
        }
        if addrs.len() > 3 {
            self.shell = addrs[3];
        }
        if addrs.len() > 4 {
            self.gecos = addrs[4];
            self.uid = (id % 0x1_0000_0000) as u32;
            self.gid = (gid % 0x1_0000_0000) as u32;
            Ok(())
        } else {
            Err(BufferError::OutOfSpace)
        }
    }
}

impl Spwd {
    /// A record with nothing in it.
    pub fn new() -> (r: Spwd)
        ensures
            r == (Spwd {
                namp: 0,
                pwdp: 0,
                lstchg: 0,
                min: 0,
                max: 0,
                warn: 0,
                inact: 0,
                expire: 0,
                flag: 0,
            }),
    {
        Spwd { namp: 0, pwdp: 0, lstchg: 0, min: 0, max: 0, warn: 0, inact: 0, expire: 0, flag: 0 }
    }

    /// Writes the strings of a shadow record into the buffer and fills the record.
    /// It fails where the strings would end beyond the buffer, and only then; the
    /// buffer is never touched from its new write offset on.
    pub fn pack_args(&mut self, buf: &mut Buffer, name: &str, pass: &str) -> (r: Result<
        (),
        BufferError,
    >)
        requires
            old(buf)@.wf(),
        ensures
            final(buf)@.wf(),
            final(buf)@ == put_strings(old(buf)@, sp_strings(name@, pass@)).0,
            *final(self) == packed_sp(
                *old(self),
                put_strings(old(buf)@, sp_strings(name@, pass@)).1,
            ),
            r is Err <==> old(buf)@.offset + total_size(sp_strings(name@, pass@)) > old(
                buf,
            )@.data.len(),
            r is Err ==> r == Err::<(), BufferError>(BufferError::OutOfSpace),
            final(buf)@.data.len() == old(buf)@.data.len(),
            old(buf)@.offset <= final(buf)@.offset,
            forall|i: int|
                final(buf)@.offset <= i < final(buf)@.data.len() ==> final(buf)@.data[i] == old(
                    buf,
                )@.data[i],
    {
        proof {
            lemma_put_strings_safe(old(buf)@, sp_strings(name@, pass@));
        }
        let mut ss: Vec<String> = Vec::new();
        ss.push(String::from_str(name));
        ss.push(String::from_str(pass));
        assert(views(ss@) =~= sp_strings(name@, pass@));
        let addrs = buf.write_strings(&ss);
        if addrs.len() > 0 {
            self.namp = addrs[0];
        }
        if addrs.len() > 1 {
            self.pwdp = addrs[1];
            self.lstchg = -1;
            self.min = -1;
            self.max = -1;
            self.warn = -1;
            self.inact = -1;
            self.expire = -1;
            self.flag = 0;
            Ok(())
        } else {
            Err(BufferError::OutOfSpace)
        }
    }
}

impl Group {
    /// A record with nothing in it.
    pub fn new() -> (r: Group)
        ensures
            r == (Group { name: 0, passwd: 0, gid: 0, mem: 0 }),
    {
        Group { name: 0, passwd: 0, gid: 0, mem: 0 }
    }

    /// Writes the strings of a group record and the array of the members' names into
    /// the buffer and fills the record. It fails where they would end beyond the
    /// buffer, and only then; the buffer is never touched from its new write offset
    /// on.
    pub fn pack_args(&mut self, buf: &mut Buffer, name: &str, id: u64, members: &Vec<String>) -> (r:
        Result<(), BufferError>)
        requires
            old(buf)@.wf(),
        ensures
            final(buf)@.wf(),
            (final(buf)@, *final(self), r is Ok) == pack_gr(
                old(buf)@,
                *old(self),
                name@,
                id,
                views(members@),
            ),
            r is Err <==> old(buf)@.offset + gr_size(old(buf)@.offset, name@, views(members@)) > old(
                buf,
            )@.data.len(),
            r is Err ==> r == Err::<(), BufferError>(BufferError::OutOfSpace),
            final(buf)@.data.len() == old(buf)@.data.len(),
            old(buf)@.offset <= final(buf)@.offset,
            forall|i: int|
                final(buf)@.offset <= i < final(buf)@.data.len() ==> final(buf)@.data[i] == old(
                    buf,
                )@.data[i],
    {
        let ghost b0 = buf@;
        let ghost ms = views(members@);
        proof {
            reveal_strlit("x");
            lemma_put_strings_safe(b0, gr_strings(name@));
            let (b1, a1) = put_strings(b0, gr_strings(name@));
            lemma_put_strings_safe(b1, ms);
            let (b2, a2) = put_strings(b1, ms);
            lemma_pointer_array_len(a2, b2.big_endian);
            lemma_put_bytes_safe(
                b2,
                align_up(b2.offset, pointer_size() as int),
                pointer_array(a2, b2.big_endian),
            );
            lemma_align_up(b2.offset, pointer_size() as int);
        }
        let mut ss: Vec<String> = Vec::new();
        ss.push(String::from_str(name));
        ss.push(String::from_str("x"));
        assert(views(ss@) =~= gr_strings(name@)) by {
            assert(ss@[1]@ =~= seq!['x']);
        }
        let head = buf.write_strings(&ss);
        if head.len() > 0 {
            self.name = head[0];
        }
        if head.len() < 2 {
            return Err(BufferError::OutOfSpace);
        }
        self.passwd = head[1];
        self.gid = (id % 0x1_0000_0000) as u32;
        match buf.write_vecstr(members) {
            Ok(addr) => {
                self.mem = addr;
                Ok(())
            },
            Err(e) => Err(e),
        }
    }
}

/// Aligning moves the offset up by less than a step.
pub proof fn lemma_align_up(offset: int, step: int)
    requires
        0 <= offset,
        0 < step,
    ensures
        offset <= align_up(offset, step) < offset + step,
        align_up(offset, step) % step == 0,
{
    let r = offset % step;
    if r != 0 {
        assert((offset + (step - r)) % step == 0) by (nonlinear_arith)
            requires
                r == offset % step,
                0 < step,
                0 <= offset,
        ;
    }
}

/// A pointer array lies at an address that is aligned for a pointer, where the
/// region itself begins at such an address.
pub proof fn lemma_pointer_array_aligned(b: BufferView)
    requires
        b.wf(),
        b.base % (pointer_size() as int) == 0,
    ensures
        (b.base + align_up(b.offset, pointer_size() as int)) % (pointer_size() as int) == 0,
{
    let step = pointer_size() as int;
    assert(step == 4 || step == 8);
    lemma_align_up(b.offset, step);
    let at = align_up(b.offset, step);
    vstd::arithmetic::div_mod::lemma_add_mod_noop(b.base, at, step);
}

/// A pointer array of `n` addresses takes `n + 1` pointers' bytes.
pub proof fn lemma_pointer_array_len(ptrs: Seq<usize>, big_endian: bool)
    ensures
        pointer_array(ptrs, big_endian).len() == (ptrs.len() + 1) * pointer_size(),
{
    lemma_pointer_run_len(ptrs, big_endian);
    lemma_le_bytes_len(0, pointer_size());
    assert((ptrs.len() + 1) * pointer_size() == ptrs.len() * pointer_size() + pointer_size())
        by (nonlinear_arith);
}

/// A run of `n` addresses takes `n` pointers' bytes.
pub proof fn lemma_pointer_run_len(ptrs: Seq<usize>, big_endian: bool)
    ensures
        crate::buffer::pointer_run(ptrs, big_endian).len() == ptrs.len() * pointer_size(),
    decreases ptrs.len(),
{
    if ptrs.len() > 0 {
        lemma_pointer_run_len(ptrs.drop_last(), big_endian);
        lemma_le_bytes_len(ptrs.last() as nat, pointer_size());
        assert(ptrs.len() * pointer_size() == (ptrs.len() - 1) * pointer_size() + pointer_size())
            by (nonlinear_arith);
    } else {
        assert(0 * pointer_size() == 0) by (nonlinear_arith);
    }
}

/// The bytes of a value at a width are as many as the width says.
pub proof fn lemma_le_bytes_len(v: nat, width: nat)
    ensures
        crate::buffer::le_bytes(v, width).len() == width,
    decreases width,
{
    if width > 0 {
        lemma_le_bytes_len(v / 256, (width - 1) as nat);
    }
}

} // verus!

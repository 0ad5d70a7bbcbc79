use vstd::prelude::*;

verus! {

/// Size of one page of the address spaces the buffers are aliased between.
pub const PAGE_SIZE: usize = 4096;

/// Size in bytes of the packet the provider reads and writes.
pub const PACKET_SIZE: usize = 48;

pub const ENOENT: usize = 2;
pub const EBADF: usize = 9;
pub const EFAULT: usize = 14;
pub const EINVAL: usize = 22;
pub const ESPIPE: usize = 29;

pub const SYS_READ: usize = 3;
pub const SYS_WRITE: usize = 4;
pub const SYS_OPEN: usize = 5;
pub const SYS_CLOSE: usize = 6;
pub const SYS_UNLINK: usize = 10;
pub const SYS_LSEEK: usize = 19;
pub const SYS_MKDIR: usize = 39;
pub const SYS_FTRUNCATE: usize = 93;
pub const SYS_FSYNC: usize = 118;
pub const SYS_FPATH: usize = 928;

pub const SEEK_SET: usize = 0;
pub const SEEK_CUR: usize = 1;
pub const SEEK_END: usize = 2;

/// The byte `:` that starts the provider's own path.
pub const COLON: u8 = 0x3a;

/// Lowest virtual address handed out for an aliased window.
pub const MEM_BASE: usize = 0x8000_0000;

/// An error number.
#[derive(Clone, Copy, Debug, PartialEq, Eq, Structural)]
pub struct Error {
    pub errno: usize,
}

impl Error {
    pub fn new(errno: usize) -> (r: Error)
        ensures
            r.errno == errno,
    {
        Error { errno }
    }
}

/// What a completion word means: values up to `isize::MAX` are successes,
/// larger ones are the two's complement of a negated error number.
pub open spec fn decoded(word: usize) -> Result<usize, Error> {
    if word <= isize::MAX {
        Ok(word)
    } else {
        Err(Error { errno: (usize::MAX - word + 1) as usize })
    }
}

/// Decodes the first word of a completion.
pub fn demux(word: usize) -> (r: Result<usize, Error>)
    ensures
        r == decoded(word),
{
    if word <= isize::MAX as usize {
        Ok(word)
    } else {
        Err(Error::new(usize::MAX - word + 1))
    }
}

/// The four argument words of a request or a completion.
pub type Words = (usize, usize, usize, usize);

/// The record exchanged with the provider.
#[derive(Clone, Copy, Debug, PartialEq, Eq, Structural)]
pub struct Packet {
    pub id: usize,
    pub a: usize,
    pub b: usize,
    pub c: usize,
    pub d: usize,
}

/// One record of a context's memory map.
#[derive(Clone, Copy, Debug, PartialEq, Eq, Structural)]
pub struct ContextMemory {
    pub physical_address: usize,
    pub virtual_address: usize,
    pub virtual_size: usize,
    pub writeable: bool,
    pub allocated: bool,
}

/// A record whose end addresses fit in a machine word.
pub open spec fn record_fits(r: ContextMemory) -> bool {
    r.virtual_address + r.virtual_size <= usize::MAX && r.physical_address + r.virtual_size
        <= usize::MAX
}

/// A live view of pages that belong to someone else.
pub open spec fn aliased(r: ContextMemory) -> bool {
    r.virtual_size != 0 && !r.allocated
}

pub open spec fn no_aliases(mem: Seq<ContextMemory>) -> bool {
    forall|i: int| 0 <= i < mem.len() ==> !aliased(#[trigger] mem[i])
}

/// The physical address that `virt` goes to under the first live record
/// that covers it.
pub open spec fn translated(mem: Seq<ContextMemory>, virt: int) -> Option<int>
    decreases mem.len(),
{
    if mem.len() == 0 {
        None
    } else if mem[0].virtual_size != 0 && mem[0].virtual_address <= virt < mem[0].virtual_address
        + mem[0].virtual_size {
        Some(mem[0].physical_address + (virt - mem[0].virtual_address))
    } else {
        translated(mem.drop_first(), virt)
    }
}

/// The end of the highest live record, and at least `MEM_BASE`.
pub open spec fn mem_top(mem: Seq<ContextMemory>) -> int
    decreases mem.len(),
{
    if mem.len() == 0 {
        MEM_BASE as int
    } else {
        let rest = mem_top(mem.drop_last());
        let r = mem.last();
        if r.virtual_size != 0 && r.virtual_address + r.virtual_size > rest {
            r.virtual_address + r.virtual_size
        } else {
            rest
        }
    }
}

/// `x` rounded up to a whole number of pages.
pub open spec fn page_round(x: int) -> int {
    (x + PAGE_SIZE - 1) / PAGE_SIZE as int * PAGE_SIZE
}

/// Whether a record survives retiring the window at `virt` and compacting.
pub open spec fn kept(virt: usize, r: ContextMemory) -> bool {
    r.virtual_size != 0 && !(r.virtual_address == virt && !r.allocated)
}

/// The records of `mem` that survive retiring the window at `virt`, in order.
pub open spec fn retained(virt: usize, mem: Seq<ContextMemory>) -> Seq<ContextMemory>
    decreases mem.len(),
{
    if mem.len() == 0 {
        mem
    } else if kept(virt, mem.last()) {
        retained(virt, mem.drop_last()).push(mem.last())
    } else {
        retained(virt, mem.drop_last())
    }
}

/// No window is placed below `MEM_BASE`.
pub proof fn lemma_mem_top_floor(mem: Seq<ContextMemory>)
    ensures
        mem_top(mem) >= MEM_BASE,
    decreases mem.len(),
{
    if mem.len() > 0 {
        lemma_mem_top_floor(mem.drop_last());
    }
}

/// The memory map of a context: what its virtual addresses translate to.
pub struct Context {
    memory: std::vec::Vec<ContextMemory>,
}

impl View for Context {
    type V = Seq<ContextMemory>;

    closed spec fn view(&self) -> Seq<ContextMemory> {
        self.memory@
    }
}

impl Context {
    pub open spec fn wf(&self) -> bool {
        forall|i: int| 0 <= i < self@.len() ==> record_fits(#[trigger] self@[i])
    }

    /// A context with an empty memory map.
    pub fn new() -> (r: Context)
        ensures
            r@ == Seq::<ContextMemory>::empty(),
            r.wf(),
    {
        Context { memory: std::vec::Vec::new() }
    }

    /// The number of records.
    pub fn len(&self) -> (r: usize)
        ensures
            r == self@.len(),
    {
        self.memory.len()
    }

    /// The record at `i`, if there is one.
    pub fn get(&self, i: usize) -> (r: Option<ContextMemory>)
        ensures
            i < self@.len() ==> r == Some(self@[i as int]),
            i >= self@.len() ==> r is None,
    {
        if i < self.memory.len() {
            Some(self.memory[i])
        } else {
            None
        }
    }

    /// Appends a record to the memory map.
    pub fn push(&mut self, record: ContextMemory)
        requires
            old(self).wf(),
            record_fits(record),
        ensures
            final(self)@ == old(self)@.push(record),
            final(self).wf(),
    {
        self.memory.push(record);
        assert forall|i: int| 0 <= i < final(self)@.len() implies record_fits(#[trigger] final(self)@[i]) by {
            if i < old(self)@.len() {
                assert(final(self)@[i] == old(self)@[i]);
            }
        }
    }

    /// The physical address behind `virt`, if any live record covers it.
    pub fn translate(&self, virt: usize) -> (r: Option<usize>)
        requires
            self.wf(),
        ensures
            r matches Some(p) ==> translated(self@, virt as int) == Some(p as int),
            r is None ==> translated(self@, virt as int) is None,
    {
        let mut i: usize = 0;
        assert(self@.subrange(0, self@.len() as int) =~= self@);
        while i < self.memory.len()
            invariant
                self.wf(),
                i <= self@.len(),
                translated(self@, virt as int) == translated(self@.subrange(i as int, self@.len() as int), virt as int),
            decreases self@.len() - i,
        {
            let m = self.memory[i];
            let ghost rest = self@.subrange(i as int, self@.len() as int);
            assert(rest[0] == m);
            assert(rest.drop_first() =~= self@.subrange(i + 1, self@.len() as int));
            assert(record_fits(self@[i as int]));
            if m.virtual_size != 0 && m.virtual_address <= virt && virt - m.virtual_address < m.virtual_size {
                return Some(m.physical_address + (virt - m.virtual_address));
            }
            i = i + 1;
        }
        None
    }

    /// The base of the lowest page-aligned range above every live record, or
    /// 0 when no such range fits in the address space.
    pub fn next_mem(&self) -> (r: usize)
        requires
            self.wf(),
        ensures
            page_round(mem_top(self@)) <= usize::MAX ==> r == page_round(mem_top(self@)),
            page_round(mem_top(self@)) > usize::MAX ==> r == 0,
    {
        let mut top: usize = MEM_BASE;
        let mut i: usize = 0;
        while i < self.memory.len()
            invariant
                self.wf(),
                i <= self@.len(),
                top == mem_top(self@.subrange(0, i as int)),
            decreases self@.len() - i,
        {
            let m = self.memory[i];
            assert(self@.subrange(0, i + 1).drop_last() =~= self@.subrange(0, i as int));
            assert(record_fits(self@[i as int]));
            if m.virtual_size != 0 && m.virtual_address + m.virtual_size > top {
                top = m.virtual_address + m.virtual_size;
            }
            i = i + 1;
        }
        assert(self@.subrange(0, self@.len() as int) =~= self@);
        if top > usize::MAX - (PAGE_SIZE - 1) {
            0
        } else {
            (top + (PAGE_SIZE - 1)) / PAGE_SIZE * PAGE_SIZE
        }
    }

    /// Retires the aliased window at `virt` (its size becomes 0) and drops
    /// every record of size 0 from the map.
    pub fn release(&mut self, virt: usize)
        requires
            old(self).wf(),
        ensures
            final(self).wf(),
            final(self)@ == retained(virt, old(self)@),
    {
        let mut out: std::vec::Vec<ContextMemory> = std::vec::Vec::new();
        let mut i: usize = 0;
        while i < self.memory.len()
            invariant
                old(self).wf(),
                self@ == old(self)@,
                i <= self@.len(),
                out@ == retained(virt, self@.subrange(0, i as int)),
                forall|j: int| 0 <= j < out@.len() ==> record_fits(#[trigger] out@[j]),
            decreases self@.len() - i,
        {
            let m = self.memory[i];
            let ghost prev = out@;
            proof {
                assert(record_fits(self@[i as int]));
            }
            if m.virtual_size != 0 && !(m.virtual_address == virt && !m.allocated) {
                out.push(m);
            }
            proof {
                let s1 = self@.subrange(0, i + 1);
                assert(s1.drop_last() =~= self@.subrange(0, i as int));
                assert(s1.last() == m);
            }
            i = i + 1;
        }
        assert(self@.subrange(0, self@.len() as int) =~= self@);
        self.memory = out;
    }
}

/// Request ids in strictly ascending order.
pub open spec fn ascending(s: Seq<(usize, Words)>) -> bool {
    forall|i: int, j: int| 0 <= i < j < s.len() ==> (#[trigger] s[i]).0 < (#[trigger] s[j]).0
}

/// The id handed out after `id`: one more, wrapping past the top to 1.
pub open spec fn id_after(id: usize) -> usize {
    if id == usize::MAX {
        1
    } else {
        (id + 1) as usize
    }
}

/// No two entries of `s` share an id.
pub open spec fn distinct_ids(s: Seq<(usize, Words)>) -> bool {
    forall|i: int, j: int| 0 <= i < s.len() && 0 <= j < s.len() && i != j ==> (#[trigger] s[i]).0
        != (#[trigger] s[j]).0
}

/// `after` is `before` with `e` entered under its id: whatever `before` held
/// under that id is replaced, every other entry stays, nothing else comes in.
pub open spec fn entered(before: Seq<(usize, Words)>, after: Seq<(usize, Words)>, e: (usize, Words)) -> bool {
    &&& after.contains(e)
    &&& after.len() == before.len() + if has_id(before, e.0) {
        0int
    } else {
        1int
    }
    &&& forall|x: (usize, Words)| before.contains(x) && x.0 != e.0 ==> after.contains(x)
    &&& forall|x: (usize, Words)| after.contains(x) ==> x == e || before.contains(x)
}

/// Whether some entry of `s` is under `id`.
pub open spec fn has_id(s: Seq<(usize, Words)>, id: usize) -> bool {
    exists|i: int| 0 <= i < s.len() && (#[trigger] s[i]).0 == id
}

/// The packet that hands a pending entry to the provider.
pub open spec fn packet_of(e: (usize, Words)) -> Packet {
    Packet { id: e.0, a: e.1.0, b: e.1.1, c: e.1.2, d: e.1.3 }
}

/// The packet that tells the provider nothing is pending.
pub open spec fn empty_packet() -> Packet {
    Packet { id: 0, a: 0, b: 0, c: 0, d: 0 }
}

/// The page-aligned view of a caller's buffer installed in the provider.
#[derive(Clone, Copy, Debug, PartialEq, Eq, Structural)]
pub struct Window {
    /// Base of the aliased range in the provider.
    pub virt: usize,
    /// Offset of the buffer within its first page.
    pub offset: usize,
    /// Size of the aliased range: whole pages covering the buffer.
    pub span: usize,
}

impl Window {
    /// The buffer's address as the provider sees it.
    pub open spec fn spec_pointer(self) -> int {
        self.virt + self.offset
    }

    pub fn pointer(&self) -> (r: usize)
        requires
            self.virt + self.offset <= usize::MAX,
        ensures
            r == self.spec_pointer(),
    {
        self.virt + self.offset
    }
}

/// Whether the provider's address space has room, above its highest live
/// record, for the window over `len` bytes at physical address `phys`.
pub open spec fn room_for(mem: Seq<ContextMemory>, phys: int, len: usize) -> bool {
    &&& page_round(mem_top(mem)) + page_round(len + phys % PAGE_SIZE as int) < usize::MAX - PAGE_SIZE
    &&& phys + len + 2 * PAGE_SIZE < usize::MAX
}

/// The record that aliases `len` bytes at physical address `phys` into the
/// provider at `virt`.
pub open spec fn alias_record(phys: usize, len: usize, virt: usize, writeable: bool) -> ContextMemory {
    ContextMemory {
        physical_address: (phys - phys % PAGE_SIZE) as usize,
        virtual_address: virt,
        virtual_size: page_round(len as int + (phys % PAGE_SIZE) as int) as usize,
        writeable,
        allocated: false,
    }
}

/// State shared by the provider of a scheme and its clients: the scheme's
/// name, the provider's memory map, the id generator, and the requests that
/// wait for the provider and the completions that wait for the clients.
pub struct SchemeInner {
    name: String,
    context: Context,
    next_id: usize,
    todo: std::vec::Vec<(usize, Words)>,
    done: std::vec::Vec<(usize, Words)>,
}

impl SchemeInner {
    pub closed spec fn spec_name(&self) -> Seq<char> {
        self.name@
    }

    /// The provider's memory map.
    pub closed spec fn memory(&self) -> Seq<ContextMemory> {
        self.context@
    }

    /// The id the next request gets.
    pub closed spec fn spec_next_id(&self) -> usize {
        self.next_id
    }

    /// Requests not yet read by the provider, in ascending id order.
    pub closed spec fn pending(&self) -> Seq<(usize, Words)> {
        self.todo@
    }

    /// Completions not yet collected, in the order they came.
    pub closed spec fn completed(&self) -> Seq<(usize, Words)> {
        self.done@
    }

    pub closed spec fn wf(&self) -> bool {
        &&& self.context.wf()
        &&& self.next_id != 0
        &&& ascending(self.todo@)
        &&& distinct_ids(self.done@)
    }

    /// Shared state for the scheme `name`, served by a provider whose memory
    /// map is `context`.
    pub fn new(name: String, context: Context) -> (r: SchemeInner)
        requires
            context.wf(),
        ensures
            r.wf(),
            r.spec_name() == name@,
            r.memory() == context@,
            r.spec_next_id() == 1,
            r.pending().len() == 0,
            r.completed().len() == 0,
    {
        SchemeInner {
            name,
            context,
            next_id: 1,
            todo: std::vec::Vec::new(),
            done: std::vec::Vec::new(),
        }
    }

    /// The provider's memory map.
    pub fn context(&self) -> (r: &Context)
        ensures
            r@ == self.memory(),
            self.wf() ==> r.wf(),
    {
        &self.context
    }

    /// The id the next request gets.
    pub fn next_id(&self) -> (r: usize)
        ensures
            r == self.spec_next_id(),
    {
        self.next_id
    }

    /// The number of requests waiting for the provider.
    pub fn pending_len(&self) -> (r: usize)
        ensures
            r == self.pending().len(),
    {
        self.todo.len()
    }

    /// The scheme's name.
    pub fn name(&self) -> (r: &str)
        ensures
            r@ == self.spec_name(),
    {
        self.name.as_str()
    }

    /// Files a request: takes the next id, advances the generator and enters
    /// the four words as pending under that id. Returns the id.
    pub fn submit(&mut self, a: usize, b: usize, c: usize, d: usize) -> (id: usize)
        requires
            old(self).wf(),
        ensures
            final(self).wf(),
            id != 0,
            id == old(self).spec_next_id(),
            final(self).spec_next_id() == id_after(id),
            ascending(final(self).pending()),
            entered(old(self).pending(), final(self).pending(), (id, (a, b, c, d))),
            final(self).completed() == old(self).completed(),
            final(self).memory() == old(self).memory(),
            final(self).spec_name() == old(self).spec_name(),
    {
        let id = self.next_id;
        self.next_id = if id == usize::MAX { 1 } else { id + 1 };
        let e: (usize, Words) = (id, (a, b, c, d));
        let mut p: usize = 0;
        while p < self.todo.len() && self.todo[p].0 < id
            invariant
                p <= self.todo@.len(),
                forall|k: int| 0 <= k < p ==> (#[trigger] self.todo@[k]).0 < id,
            decreases self.todo@.len() - p,
        {
            p = p + 1;
        }
        let ghost old_todo = self.todo@;
        if p < self.todo.len() && self.todo[p].0 == id {
            assert(has_id(old_todo, id));
            self.todo.set(p, e);
            assert forall|k: int| 0 <= k < old_todo.len() && old_todo[k].0 != id implies
                self.todo@.contains(#[trigger] old_todo[k]) by {
                assert(self.todo@[k] == old_todo[k]);
            }
            assert forall|j: int| 0 <= j < self.todo@.len() implies #[trigger] self.todo@[j] == e
                || old_todo.contains(self.todo@[j]) by {
                if j != p {
                    assert(old_todo[j] == self.todo@[j]);
                }
            }
        } else {
            assert(!has_id(old_todo, id)) by {
                assert forall|k: int| 0 <= k < old_todo.len() implies (#[trigger] old_todo[k]).0 != id by {
                    if k > p {
                        assert(old_todo[p as int].0 < old_todo[k].0);
                    }
                }
            }
            self.todo.insert(p, e);
            assert forall|k: int| 0 <= k < old_todo.len() implies
                self.todo@.contains(#[trigger] old_todo[k]) by {
                if k < p {
                    assert(self.todo@[k] == old_todo[k]);
                } else {
                    assert(self.todo@[k + 1] == old_todo[k]);
                }
            }
            assert forall|j: int| 0 <= j < self.todo@.len() implies #[trigger] self.todo@[j] == e
                || old_todo.contains(self.todo@[j]) by {
                if j < p {
                    assert(old_todo[j] == self.todo@[j]);
                } else if j > p {
                    assert(old_todo[j - 1] == self.todo@[j]);
                }
            }
        }
        assert(self.todo@[p as int] == e);
        id
    }

    /// Collects the completion of request `id`, if the provider has sent it,
    /// and decodes its first word.
    pub fn take_completion(&mut self, id: usize) -> (r: Option<Result<usize, Error>>)
        requires
            old(self).wf(),
        ensures
            final(self).wf(),
            r is None <==> !has_id(old(self).completed(), id),
            r is None ==> final(self).completed() == old(self).completed(),
            distinct_ids(final(self).completed()),
            r is Some ==> exists|i: int|
                0 <= i < old(self).completed().len() && (#[trigger] old(self).completed()[i]).0
                    == id && r == Some(decoded(old(self).completed()[i].1.0)) && final(self).completed() == old(self).completed().remove(i),
            final(self).pending() == old(self).pending(),
            final(self).spec_next_id() == old(self).spec_next_id(),
            final(self).memory() == old(self).memory(),
            final(self).spec_name() == old(self).spec_name(),
    {
        let mut i: usize = 0;
        while i < self.done.len()
            invariant
                self.wf(),
                self.done@ == old(self).done@,
                self.todo@ == old(self).todo@,
                self.next_id == old(self).next_id,
                self.context@ == old(self).context@,
                self.name@ == old(self).name@,
                i <= self.done@.len(),
                forall|k: int| 0 <= k < i ==> (#[trigger] self.done@[k]).0 != id,
            decreases self.done@.len() - i,
        {
            if self.done[i].0 == id {
                let ghost before = self.done@;
                let e = self.done.remove(i);
                assert(before[i as int] == e);
                assert(has_id(before, id));
                return Some(demux(e.1.0));
            }
            i = i + 1;
        }
        assert(!has_id(self.done@, id));
        None
    }

    /// Hands the pending request with the smallest id to the provider and
    /// drops it from the pending ones; the packet has id 0 when none is
    /// pending. `buf_len` is the size of the provider's buffer, which must
    /// hold exactly one packet.
    pub fn recv(&mut self, buf_len: usize) -> (r: Result<Packet, Error>)
        requires
            old(self).wf(),
        ensures
            final(self).wf(),
            buf_len != PACKET_SIZE ==> r == Err::<Packet, Error>(Error { errno: EINVAL })
                && final(self).pending() == old(self).pending(),
            buf_len == PACKET_SIZE && old(self).pending().len() == 0 ==> r == Ok::<Packet, Error>(
                empty_packet(),
            ) && final(self).pending() == old(self).pending(),
            buf_len == PACKET_SIZE && old(self).pending().len() > 0 ==> r == Ok::<Packet, Error>(
                packet_of(old(self).pending()[0]),
            ) && final(self).pending() == old(self).pending().drop_first(),
            r matches Ok(p) ==> forall|j: int|
                0 <= j < final(self).pending().len() ==> p.id < (#[trigger] final(self).pending()[j]).0,
            final(self).completed() == old(self).completed(),
            final(self).spec_next_id() == old(self).spec_next_id(),
            final(self).memory() == old(self).memory(),
            final(self).spec_name() == old(self).spec_name(),
    {
        if buf_len != PACKET_SIZE {
            return Err(Error::new(EINVAL));
        }
        if self.todo.len() == 0 {
            return Ok(Packet { id: 0, a: 0, b: 0, c: 0, d: 0 });
        }
        let ghost before = self.todo@;
        let e = self.todo.remove(0);
        assert(self.todo@ =~= before.drop_first());
        assert forall|j: int| 0 <= j < self.todo@.len() implies e.0 < (#[trigger] self.todo@[j]).0 by {
            assert(before[j + 1] == self.todo@[j]);
        }
        Ok(Packet { id: e.0, a: e.1.0, b: e.1.1, c: e.1.2, d: e.1.3 })
    }

    /// Takes the provider's completion of a request. `buf_len` is the size
    /// of the provider's buffer, which must hold exactly one packet.
    pub fn reply(&mut self, buf_len: usize, packet: Packet) -> (r: Result<usize, Error>)
        requires
            old(self).wf(),
        ensures
            final(self).wf(),
            buf_len != PACKET_SIZE ==> r == Err::<usize, Error>(Error { errno: EINVAL })
                && final(self).completed() == old(self).completed(),
            buf_len == PACKET_SIZE ==> r == Ok::<usize, Error>(PACKET_SIZE) && entered(
                old(self).completed(),
                final(self).completed(),
                (packet.id, (packet.a, packet.b, packet.c, packet.d)),
            ),
            distinct_ids(final(self).completed()),
            final(self).pending() == old(self).pending(),
            final(self).spec_next_id() == old(self).spec_next_id(),
            final(self).memory() == old(self).memory(),
            final(self).spec_name() == old(self).spec_name(),
    {
        if buf_len != PACKET_SIZE {
            return Err(Error::new(EINVAL));
        }
        let id = packet.id;
        let e: (usize, Words) = (id, (packet.a, packet.b, packet.c, packet.d));
        let mut p: usize = 0;
        while p < self.done.len() && self.done[p].0 != id
            invariant
                p <= self.done@.len(),
                forall|k: int| 0 <= k < p ==> (#[trigger] self.done@[k]).0 != id,
            decreases self.done@.len() - p,
        {
            p = p + 1;
        }
        let ghost before = self.done@;
        if p < self.done.len() {
            assert(has_id(before, id));
            self.done.set(p, e);
            assert forall|k: int| 0 <= k < before.len() && before[k].0 != id implies
                self.done@.contains(#[trigger] before[k]) by {
                assert(self.done@[k] == before[k]);
            }
            assert forall|j: int| 0 <= j < self.done@.len() implies #[trigger] self.done@[j] == e
                || before.contains(self.done@[j]) by {
                if j != p {
                    assert(before[j] == self.done@[j]);
                }
            }
        } else {
            assert(!has_id(before, id));
            self.done.push(e);
            assert forall|k: int| 0 <= k < before.len() implies
                self.done@.contains(#[trigger] before[k]) by {
                assert(self.done@[k] == before[k]);
            }
            assert forall|j: int| 0 <= j < self.done@.len() implies #[trigger] self.done@[j] == e
                || before.contains(self.done@[j]) by {
                if j < before.len() {
                    assert(before[j] == self.done@[j]);
                }
            }
        }
        assert(self.done@[p as int] == e);
        Ok(PACKET_SIZE)
    }

    /// Installs in the provider an aliased, page-aligned view of `len` bytes
    /// at physical address `phys`. `None` when the provider has no room for
    /// it; the memory map is then unchanged.
    pub fn map_window(&mut self, phys: usize, len: usize, writeable: bool) -> (r: Option<Window>)
        requires
            old(self).wf(),
        ensures
            final(self).wf(),
            r is None ==> final(self).memory() == old(self).memory(),
            r matches Some(w) ==> {
                &&& w.virt != 0
                &&& w.virt == page_round(mem_top(old(self).memory()))
                &&& w.offset == phys % PAGE_SIZE
                &&& w.span == page_round(len as int + (phys % PAGE_SIZE) as int)
                &&& w.virt + w.offset <= usize::MAX
                &&& final(self).memory() == old(self).memory().push(
                    alias_record(phys, len, w.virt, writeable),
                )
            },
            room_for(old(self).memory(), phys as int, len) ==> r is Some,
            final(self).pending() == old(self).pending(),
            final(self).completed() == old(self).completed(),
            final(self).spec_next_id() == old(self).spec_next_id(),
            final(self).spec_name() == old(self).spec_name(),
    {
        let offset = phys % PAGE_SIZE;
        if len > usize::MAX - offset - (2 * PAGE_SIZE) {
            return None;
        }
        let span = (len + offset + (PAGE_SIZE - 1)) / PAGE_SIZE * PAGE_SIZE;
        proof {
            assert(span <= len + offset + PAGE_SIZE) by (nonlinear_arith)
                requires span == (len + offset + (PAGE_SIZE - 1)) / PAGE_SIZE as int * PAGE_SIZE;
        }
        proof {
            lemma_mem_top_floor(self.context@);
        }
        let virt = self.context.next_mem();
        if virt == 0 || virt > usize::MAX - span - PAGE_SIZE {
            return None;
        }
        let base = phys - offset;
        if base > usize::MAX - span {
            return None;
        }
        let record = ContextMemory {
            physical_address: base,
            virtual_address: virt,
            virtual_size: span,
            writeable,
            allocated: false,
        };
        self.context.push(record);
        Some(Window { virt, offset, span })
    }

    /// Retires the window at `virt` and compacts the provider's memory map.
    pub fn unmap_window(&mut self, virt: usize)
        requires
            old(self).wf(),
        ensures
            final(self).wf(),
            final(self).memory() == retained(virt, old(self).memory()),
            final(self).pending() == old(self).pending(),
            final(self).completed() == old(self).completed(),
            final(self).spec_next_id() == old(self).spec_next_id(),
            final(self).spec_name() == old(self).spec_name(),
    {
        self.context.release(virt);
    }

    /// Writes `":"` and the scheme's name into `buf`, as far as it reaches;
    /// returns the number of bytes written.
    pub fn path(&self, buf: &mut [u8]) -> (r: usize)
        ensures
            r == if old(buf)@.len() < 1 + self.name_bytes().len() { old(buf)@.len() as int } else {
                1 + self.name_bytes().len() as int
            },
            final(buf)@.len() == old(buf)@.len(),
            forall|k: int| 0 <= k < r ==> #[trigger] final(buf)@[k] == seq![COLON].add(self.name_bytes())[k],
            forall|k: int| r <= k < old(buf)@.len() ==> #[trigger] final(buf)@[k] == old(buf)@[k],
    {
        let bytes = self.name.as_str().as_bytes();
        let ghost full = seq![COLON].add(bytes@);
        let mut i: usize = 0;
        if buf.len() > 0 {
            buf[0] = COLON;
            i = 1;
        }
        while i < buf.len() && i - 1 < bytes.len()
            invariant
                buf@.len() == old(buf)@.len(),
                bytes@ == self.name_bytes(),
                full == seq![COLON].add(bytes@),
                i <= buf@.len(),
                i <= 1 + bytes@.len(),
                buf@.len() > 0 ==> i >= 1,
                buf@.len() == 0 ==> i == 0,
                forall|k: int| 0 <= k < i ==> #[trigger] buf@[k] == full[k],
                forall|k: int| i <= k < buf@.len() ==> #[trigger] buf@[k] == old(buf)@[k],
            decreases buf@.len() - i,
        {
            buf[i] = bytes[i - 1];
            assert(full[i as int] == bytes@[i - 1]);
            i = i + 1;
        }
        i
    }

    /// The bytes of the scheme's name.
    pub open spec fn name_bytes(&self) -> Seq<u8> {
        vstd::utf8::encode_utf8(self.spec_name())
    }
}

impl SchemeInner {
    /// Starts a file-level call that hands the provider a caller's buffer:
    /// translates `addr` in the caller's map, aliases the buffer's pages
    /// into the provider, and files `(op, file_id, pointer, len)`. Returns
    /// the window to retire and the request id.
    pub fn begin_file_call(
        &mut self,
        caller: &Context,
        addr: usize,
        len: usize,
        writeable: bool,
        op: usize,
        file_id: usize,
    ) -> (r: Result<(Window, usize), Error>)
        requires
            old(self).wf(),
            caller.wf(),
        ensures
            final(self).wf(),
            translated(caller@, addr as int) is None ==> r == Err::<(Window, usize), Error>(
                Error { errno: EFAULT },
            ),
            r is Err ==> final(self).memory() == old(self).memory() && final(self).pending()
                == old(self).pending() && final(self).spec_next_id() == old(self).spec_next_id(),
            r matches Err(e) ==> e.errno == EFAULT || e.errno == EBADF,
            translated(caller@, addr as int) matches Some(phys) ==> (room_for(
                old(self).memory(),
                phys,
                len,
            ) ==> r is Ok),
            translated(caller@, addr as int) is Some ==> (r matches Err(e) ==> e.errno == EBADF),
            r matches Ok((w, id)) ==> {
                &&& translated(caller@, addr as int) matches Some(phys)
                &&& w.virt == page_round(mem_top(old(self).memory()))
                &&& w.offset == phys % PAGE_SIZE as int
                &&& w.span == page_round(len as int + phys % PAGE_SIZE as int)
                &&& id == old(self).spec_next_id()
                &&& final(self).spec_next_id() == id_after(id)
                &&& final(self).memory() == old(self).memory().push(
                    alias_record(phys as usize, len, w.virt, writeable),
                )
                &&& ascending(final(self).pending())
                &&& entered(
                    old(self).pending(),
                    final(self).pending(),
                    (id, (op, file_id, w.spec_pointer() as usize, len)),
                )
            },
            final(self).completed() == old(self).completed(),
    {
        let phys = match caller.translate(addr) {
            Some(p) => p,
            None => {
                return Err(Error::new(EFAULT));
            },
        };
        match self.map_window(phys, len, writeable) {
            Some(w) => {
                let id = self.submit(op, file_id, w.pointer(), len);
                Ok((w, id))
            },
            None => Err(Error::new(EBADF)),
        }
    }

    /// Starts a scheme-level call that hands the provider a path string
    /// (the URL and its terminating NUL) of `len` bytes at kernel address
    /// `phys`: aliases it read-only and files `(op, pointer, flags, 0)`.
    pub fn begin_path_call(&mut self, phys: usize, len: usize, op: usize, flags: usize) -> (r:
        Result<(Window, usize), Error>)
        requires
            old(self).wf(),
        ensures
            final(self).wf(),
            r matches Err(e) ==> e.errno == ENOENT && final(self).memory() == old(self).memory()
                && final(self).pending() == old(self).pending() && final(self).spec_next_id()
                == old(self).spec_next_id(),
            room_for(old(self).memory(), phys as int, len) ==> r is Ok,
            r matches Ok((w, id)) ==> {
                &&& w.virt == page_round(mem_top(old(self).memory()))
                &&& w.offset == phys % PAGE_SIZE
                &&& w.span == page_round(len as int + (phys % PAGE_SIZE) as int)
                &&& id == old(self).spec_next_id()
                &&& final(self).spec_next_id() == id_after(id)
                &&& final(self).memory() == old(self).memory().push(
                    alias_record(phys, len, w.virt, false),
                )
                &&& ascending(final(self).pending())
                &&& entered(
                    old(self).pending(),
                    final(self).pending(),
                    (id, (op, w.spec_pointer() as usize, flags, 0usize)),
                )
            },
            final(self).completed() == old(self).completed(),
    {
        match self.map_window(phys, len, false) {
            Some(w) => {
                let id = self.submit(op, w.pointer(), flags, 0);
                Ok((w, id))
            },
            None => Err(Error::new(ENOENT)),
        }
    }
}

/// One resumption of a client waiting for request `id`: `None` for the
/// shared state means the provider is gone, and the call ends with a bad
/// descriptor; otherwise the call ends with its completion once the provider
/// has sent it, and `None` means wait on.
pub fn resume(inner: Option<&mut SchemeInner>, id: usize) -> (r: Option<Result<usize, Error>>)
    requires
        inner matches Some(s) ==> s.wf(),
    ensures
        inner is None ==> r == Some(Err::<usize, Error>(Error { errno: EBADF })),
        inner matches Some(s) ==> (r is None <==> !has_id(s.completed(), id)),
        inner matches Some(s) ==> (r matches Some(v) ==> exists|i: int|
            0 <= i < s.completed().len() && (#[trigger] s.completed()[i]).0 == id && v == decoded(
                s.completed()[i].1.0,
            )),
{
    match inner {
        None => Some(Err(Error::new(EBADF))),
        Some(s) => s.take_completion(id),
    }
}

/// Retiring a call's window leaves the provider with no aliased record,
/// whatever the call returned, when it had none before the window was
/// installed.
pub proof fn lemma_window_retired(mem: Seq<ContextMemory>, record: ContextMemory)
    requires
        no_aliases(mem),
    ensures
        no_aliases(retained(record.virtual_address, mem.push(record))),
{
    lemma_retained_from(record.virtual_address, mem.push(record));
    let out = retained(record.virtual_address, mem.push(record));
    assert forall|i: int| 0 <= i < out.len() implies !aliased(#[trigger] out[i]) by {
        let j = choose|j: int| 0 <= j < mem.push(record).len() && mem.push(record)[j] == out[i];
        if j < mem.len() {
            assert(mem.push(record)[j] == mem[j]);
        }
    }
}

/// Every record kept by `retained` is one of `mem` and survives the retirement.
pub proof fn lemma_retained_from(virt: usize, mem: Seq<ContextMemory>)
    ensures
        forall|i: int| 0 <= i < retained(virt, mem).len() ==> kept(virt, #[trigger] retained(virt, mem)[i])
            && exists|j: int| 0 <= j < mem.len() && mem[j] == retained(virt, mem)[i],
    decreases mem.len(),
{
    if mem.len() > 0 {
        let init = mem.drop_last();
        lemma_retained_from(virt, init);
        let prev = retained(virt, init);
        assert forall|i: int| 0 <= i < retained(virt, mem).len() implies kept(virt, #[trigger] retained(virt, mem)[i])
            && exists|j: int| 0 <= j < mem.len() && mem[j] == retained(virt, mem)[i] by {
            if i < prev.len() {
                assert(retained(virt, mem)[i] == prev[i]);
                let j = choose|j: int| 0 <= j < init.len() && init[j] == prev[i];
                assert(mem[j] == init[j]);
            } else {
                assert(mem[mem.len() - 1] == mem.last());
            }
        }
    }
}

/// Ids come out in order: each is the one after the last, wrapping past the
/// top to 1, and none is 0.
pub proof fn lemma_ids_in_order(first: usize)
    requires
        first != 0,
    ensures
        id_after(first) != 0,
        first < usize::MAX ==> id_after(first) == first + 1,
        first == usize::MAX ==> id_after(first) == 1,
{
}

/// Of two pending requests, the one the provider reads first has the smaller
/// id: the first `recv` takes the front, the second the new front.
pub proof fn lemma_recv_ascending(pending: Seq<(usize, Words)>)
    requires
        ascending(pending),
        pending.len() >= 2,
    ensures
        packet_of(pending[0]).id < packet_of(pending.drop_first()[0]).id,
        ascending(pending.drop_first()),
{
    assert(pending.drop_first()[0] == pending[1]);
    assert forall|i: int, j: int| 0 <= i < j < pending.drop_first().len() implies
        (#[trigger] pending.drop_first()[i]).0 < (#[trigger] pending.drop_first()[j]).0 by {
        assert(pending.drop_first()[i] == pending[i + 1]);
        assert(pending.drop_first()[j] == pending[j + 1]);
    }
}

/// Where a seek goes, as a client asks for it.
#[derive(Clone, Copy, Debug, PartialEq, Eq, Structural)]
pub enum ResourceSeek {
    Start(usize),
    Current(isize),
    End(isize),
}

/// The machine word that carries a signed offset (two's complement).
pub open spec fn word_of(v: isize) -> usize {
    if v >= 0 {
        v as usize
    } else {
        (usize::MAX + 1 + v) as usize
    }
}

/// The `(offset, whence)` pair a seek is sent as.
pub open spec fn seek_words(pos: ResourceSeek) -> (usize, usize) {
    match pos {
        ResourceSeek::Start(o) => (o, SEEK_SET),
        ResourceSeek::Current(o) => (word_of(o), SEEK_CUR),
        ResourceSeek::End(o) => (word_of(o), SEEK_END),
    }
}

fn signed_word(v: isize) -> (r: usize)
    ensures
        r == word_of(v),
{
    if v >= 0 {
        v as usize
    } else {
        usize::MAX - ((-(v + 1)) as usize)
    }
}

/// A file opened on a scheme, as its client holds it.
pub struct SchemeResource {
    file_id: usize,
}

impl SchemeResource {
    /// The handle for the file the provider calls `file_id`.
    pub fn new(file_id: usize) -> (r: SchemeResource)
        ensures
            r.spec_file_id() == file_id,
    {
        SchemeResource { file_id }
    }

    pub closed spec fn spec_file_id(&self) -> usize {
        self.file_id
    }

    pub fn file_id(&self) -> (r: usize)
        ensures
            r == self.spec_file_id(),
    {
        self.file_id
    }

    /// Duplication is not supported.
    pub fn dup(&self) -> (r: Result<SchemeResource, Error>)
        ensures
            r == Err::<SchemeResource, Error>(Error { errno: EBADF }),
    {
        Err(Error::new(EBADF))
    }

    /// The request that moves the file's position.
    pub fn seek_request(&self, pos: ResourceSeek) -> (r: Words)
        ensures
            r == (SYS_LSEEK, self.spec_file_id(), seek_words(pos).0, seek_words(pos).1),
    {
        let (offset, whence) = match pos {
            ResourceSeek::Start(o) => (o, SEEK_SET),
            ResourceSeek::Current(o) => (signed_word(o), SEEK_CUR),
            ResourceSeek::End(o) => (signed_word(o), SEEK_END),
        };
        (SYS_LSEEK, self.file_id, offset, whence)
    }

    /// The request that flushes the file.
    pub fn sync_request(&self) -> (r: Words)
        ensures
            r == (SYS_FSYNC, self.spec_file_id(), 0usize, 0usize),
    {
        (SYS_FSYNC, self.file_id, 0, 0)
    }

    /// The request that sets the file's length.
    pub fn truncate_request(&self, len: usize) -> (r: Words)
        ensures
            r == (SYS_FTRUNCATE, self.spec_file_id(), len, 0usize),
    {
        (SYS_FTRUNCATE, self.file_id, len, 0)
    }

    /// The request sent when the handle is dropped.
    pub fn close_request(&self) -> (r: Words)
        ensures
            r == (SYS_CLOSE, self.spec_file_id(), 0usize, 0usize),
    {
        (SYS_CLOSE, self.file_id, 0, 0)
    }
}

/// The outcome of a call whose numeric result is dropped on success.
pub fn unit_result(r: Result<usize, Error>) -> (out: Result<(), Error>)
    ensures
        r matches Ok(_) ==> out == Ok::<(), Error>(()),
        r matches Err(e) ==> out == Err::<(), Error>(e),
{
    match r {
        Ok(_) => Ok(()),
        Err(e) => Err(e),
    }
}

/// The outcome of an `open`: the provider's id wrapped in a client handle.
pub fn open_result(r: Result<usize, Error>) -> (out: Result<SchemeResource, Error>)
    ensures
        r matches Ok(id) ==> out matches Ok(h) && h.spec_file_id() == id,
        r matches Err(e) ==> out matches Err(e2) && e2 == e,
{
    match r {
        Ok(id) => Ok(SchemeResource::new(id)),
        Err(e) => Err(e),
    }
}

/// The provider's descriptor, for the operations that it refuses without
/// touching the shared state; `recv`, `reply` and `path` work on the
/// `SchemeInner` it shares.
pub struct SchemeServerResource {}

impl SchemeServerResource {
    pub fn new() -> (r: SchemeServerResource) {
        SchemeServerResource {  }
    }

    /// Seeking on the provider's descriptor is refused.
    pub fn seek(&self, pos: ResourceSeek) -> (r: Result<usize, Error>)
        ensures
            r == Err::<usize, Error>(Error { errno: ESPIPE }),
    {
        Err(Error::new(ESPIPE))
    }

    /// Syncing the provider's descriptor is refused.
    pub fn sync(&self) -> (r: Result<(), Error>)
        ensures
            r == Err::<(), Error>(Error { errno: EINVAL }),
    {
        Err(Error::new(EINVAL))
    }

    /// Truncating the provider's descriptor is refused.
    pub fn truncate(&self, len: usize) -> (r: Result<(), Error>)
        ensures
            r == Err::<(), Error>(Error { errno: EINVAL }),
    {
        Err(Error::new(EINVAL))
    }
}

} // verus!

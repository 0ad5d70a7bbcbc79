use scheme_ipc::scheme::{
    demux, open_result, resume, unit_result, Context, ContextMemory, Error, Packet, ResourceSeek,
    SchemeInner, SchemeResource, SchemeServerResource, EBADF, EFAULT, EINVAL, ENOENT, ESPIPE,
    MEM_BASE, PACKET_SIZE, PAGE_SIZE, SEEK_CUR, SEEK_END, SEEK_SET, SYS_CLOSE, SYS_FSYNC,
    SYS_FTRUNCATE, SYS_LSEEK, SYS_OPEN, SYS_READ, SYS_WRITE,
};

fn caller_with(virt: usize, phys: usize, size: usize) -> Context {
    let mut c = Context::new();
    c.push(ContextMemory {
        physical_address: phys,
        virtual_address: virt,
        virtual_size: size,
        writeable: true,
        allocated: true,
    });
    c
}

fn scheme(name: &str) -> SchemeInner {
    SchemeInner::new(String::from(name), Context::new())
}

fn err_word(errno: usize) -> usize {
    usize::MAX - errno + 1
}

fn aliased_records(inner: &SchemeInner) -> usize {
    let ctx = inner.context();
    let mut n = 0;
    for i in 0..ctx.len() {
        let r = ctx.get(i).unwrap();
        if r.virtual_size != 0 && !r.allocated {
            n += 1;
        }
    }
    n
}

#[test]
fn open_read_close() {
    let mut inner = scheme("pipe");
    let url = b"pipe:x\0";
    let (w, id) = inner.begin_path_call(0x10_0000, url.len(), SYS_OPEN, 0).unwrap();
    assert_eq!(w.virt, MEM_BASE);
    assert_eq!(aliased_records(&inner), 1);
    let p = inner.recv(PACKET_SIZE).unwrap();
    assert_eq!(p, Packet { id, a: SYS_OPEN, b: MEM_BASE, c: 0, d: 0 });
    inner.reply(PACKET_SIZE, Packet { id, a: 7, b: 0, c: 0, d: 0 }).unwrap();
    let r = inner.take_completion(id).unwrap();
    inner.unmap_window(w.virt);
    assert_eq!(aliased_records(&inner), 0);
    let file = open_result(r).unwrap();
    assert_eq!(file.file_id(), 7);

    let caller = caller_with(0x4000, 0x20_0000, 0x1000);
    let (w, id) = inner
        .begin_file_call(&caller, 0x4010, 16, true, SYS_READ, file.file_id())
        .unwrap();
    assert_eq!(w.offset, 0x10);
    assert_eq!(w.span, PAGE_SIZE);
    let rec = inner.context().get(0).unwrap();
    assert_eq!(rec.physical_address, 0x20_0000);
    assert_eq!(rec.virtual_size, PAGE_SIZE);
    assert!(rec.writeable);
    assert!(!rec.allocated);
    let p = inner.recv(PACKET_SIZE).unwrap();
    assert_eq!(p, Packet { id, a: SYS_READ, b: 7, c: w.virt + 0x10, d: 16 });
    assert_eq!(inner.take_completion(id), None);
    inner.reply(PACKET_SIZE, Packet { id, a: 5, b: 0, c: 0, d: 0 }).unwrap();
    assert_eq!(inner.take_completion(id), Some(Ok(5)));
    inner.unmap_window(w.virt);
    assert_eq!(inner.context().len(), 0);

    let (a, b, c, d) = file.close_request();
    assert_eq!((a, b, c, d), (SYS_CLOSE, 7, 0, 0));
    let id = inner.submit(a, b, c, d);
    let p = inner.recv(PACKET_SIZE).unwrap();
    assert_eq!(p, Packet { id, a: SYS_CLOSE, b: 7, c: 0, d: 0 });
}

#[test]
fn unmapped_buffer() {
    let mut inner = scheme("pipe");
    let caller = caller_with(0x4000, 0x20_0000, 0x1000);
    let r = inner.begin_file_call(&caller, 0x9000, 16, false, SYS_WRITE, 3);
    assert_eq!(r, Err(Error { errno: EFAULT }));
    assert_eq!(inner.pending_len(), 0);
    assert_eq!(inner.context().len(), 0);
    assert_eq!(inner.next_id(), 1);
}

#[test]
fn seek_on_provider() {
    let server = SchemeServerResource::new();
    assert_eq!(server.seek(ResourceSeek::Start(3)), Err(Error { errno: ESPIPE }));
    assert_eq!(server.sync(), Err(Error { errno: EINVAL }));
    assert_eq!(server.truncate(4), Err(Error { errno: EINVAL }));
}

#[test]
fn packet_size_mismatch() {
    let mut inner = scheme("pipe");
    inner.submit(1, 2, 3, 4);
    assert_eq!(inner.recv(40), Err(Error { errno: EINVAL }));
    assert_eq!(inner.pending_len(), 1);
    let p = Packet { id: 1, a: 0, b: 0, c: 0, d: 0 };
    assert_eq!(inner.reply(40, p), Err(Error { errno: EINVAL }));
    assert_eq!(inner.take_completion(1), None);
}

#[test]
fn fifo_order() {
    let mut inner = scheme("pipe");
    for _ in 0..16 {
        inner.submit(0, 0, 0, 0);
        inner.recv(PACKET_SIZE).unwrap();
    }
    let second_client = inner.submit(SYS_READ, 2, 0, 0);
    let first_client = inner.submit(SYS_READ, 1, 0, 0);
    assert_eq!((second_client, first_client), (17, 18));
    assert_eq!(inner.recv(PACKET_SIZE).unwrap().id, 17);
    assert_eq!(inner.recv(PACKET_SIZE).unwrap().id, 18);
    assert_eq!(inner.recv(PACKET_SIZE).unwrap(), Packet { id: 0, a: 0, b: 0, c: 0, d: 0 });
}

#[test]
fn ids_are_consecutive_and_nonzero() {
    let mut inner = scheme("pipe");
    let a = inner.submit(0, 0, 0, 0);
    let b = inner.submit(0, 0, 0, 0);
    assert_eq!((a, b), (1, 2));
    assert_eq!(inner.next_id(), 3);
}

#[test]
fn recv_takes_smallest_id() {
    let mut inner = scheme("pipe");
    for k in 0..5 {
        inner.submit(k, 0, 0, 0);
    }
    let mut last = 0;
    for _ in 0..5 {
        let p = inner.recv(PACKET_SIZE).unwrap();
        assert!(p.id > last);
        assert_eq!(p.a, p.id - 1);
        last = p.id;
    }
}

#[test]
fn window_retired_after_failure() {
    let mut inner = scheme("pipe");
    let caller = caller_with(0x4000, 0x20_0123, 0x3000);
    let (w, id) = inner.begin_file_call(&caller, 0x4000, 0x1000, false, SYS_WRITE, 9).unwrap();
    assert_eq!(w.offset, 0x123);
    assert_eq!(w.span, 2 * PAGE_SIZE);
    inner.recv(PACKET_SIZE).unwrap();
    inner.reply(PACKET_SIZE, Packet { id, a: err_word(EBADF), b: 0, c: 0, d: 0 }).unwrap();
    assert_eq!(inner.take_completion(id), Some(Err(Error { errno: EBADF })));
    inner.unmap_window(w.virt);
    assert_eq!(aliased_records(&inner), 0);
}

#[test]
fn second_window_goes_above_first() {
    let mut inner = scheme("pipe");
    let (w1, _) = inner.begin_path_call(0x1000, 5000, SYS_OPEN, 0).unwrap();
    let (w2, _) = inner.begin_path_call(0x3000, 10, SYS_OPEN, 0).unwrap();
    assert_eq!(w1.virt, MEM_BASE);
    assert_eq!(w2.virt, MEM_BASE + 2 * PAGE_SIZE);
    inner.unmap_window(w1.virt);
    inner.unmap_window(w2.virt);
    assert_eq!(inner.context().len(), 0);
}

#[test]
fn no_room_for_path() {
    let mut inner = scheme("pipe");
    let r = inner.begin_path_call(0, usize::MAX - 10, SYS_OPEN, 0);
    assert_eq!(r, Err(Error { errno: ENOENT }));
    assert_eq!(inner.pending_len(), 0);
}

#[test]
fn demux_words() {
    assert_eq!(demux(7), Ok(7));
    assert_eq!(demux(err_word(EBADF)), Err(Error { errno: EBADF }));
    assert_eq!(demux(usize::MAX), Err(Error { errno: 1 }));
}

#[test]
fn client_requests() {
    let f = SchemeResource::new(4);
    assert_eq!(f.seek_request(ResourceSeek::Start(10)), (SYS_LSEEK, 4, 10, SEEK_SET));
    assert_eq!(f.seek_request(ResourceSeek::Current(-1)), (SYS_LSEEK, 4, usize::MAX, SEEK_CUR));
    assert_eq!(f.seek_request(ResourceSeek::End(2)), (SYS_LSEEK, 4, 2, SEEK_END));
    assert_eq!(f.sync_request(), (SYS_FSYNC, 4, 0, 0));
    assert_eq!(f.truncate_request(99), (SYS_FTRUNCATE, 4, 99, 0));
    assert!(matches!(f.dup(), Err(Error { errno: EBADF })));
    assert_eq!(unit_result(Ok(3)), Ok(()));
    assert_eq!(unit_result(Err(Error { errno: ENOENT })), Err(Error { errno: ENOENT }));
    assert!(open_result(Err(Error { errno: ENOENT })).is_err());
}

#[test]
fn provider_path() {
    let inner = scheme("pipe");
    let mut buf = [0u8; 16];
    assert_eq!(inner.path(&mut buf), 5);
    assert_eq!(&buf[..5], b":pipe");
    let mut short = [0u8; 3];
    assert_eq!(inner.path(&mut short), 3);
    assert_eq!(&short, b":pi");
    let mut none: [u8; 0] = [];
    assert_eq!(inner.path(&mut none), 0);
    assert_eq!(inner.name(), "pipe");
}

#[test]
fn provider_gone_ends_wait() {
    assert_eq!(resume(None, 3), Some(Err(Error { errno: EBADF })));
    let mut inner = scheme("pipe");
    let id = inner.submit(SYS_READ, 1, 0, 0);
    assert_eq!(resume(Some(&mut inner), id), None);
    inner.reply(PACKET_SIZE, Packet { id, a: 4, b: 0, c: 0, d: 0 }).unwrap();
    assert_eq!(resume(Some(&mut inner), id), Some(Ok(4)));
    assert_eq!(resume(Some(&mut inner), id), None);
}

#[test]
fn reply_replaces_under_id() {
    let mut inner = scheme("pipe");
    inner.reply(PACKET_SIZE, Packet { id: 5, a: 1, b: 0, c: 0, d: 0 }).unwrap();
    inner.reply(PACKET_SIZE, Packet { id: 5, a: 2, b: 0, c: 0, d: 0 }).unwrap();
    assert_eq!(inner.take_completion(5), Some(Ok(2)));
    assert_eq!(inner.take_completion(5), None);
}

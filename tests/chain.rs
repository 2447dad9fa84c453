use std::collections::HashMap;

use chaindict::delta;
use chaindict::snapshot;
use chaindict::storage;
use chaindict::{Entry, Error, Kind, LazyWriter, LinkId, Reader, Writer};

/// An object store in memory: the bytes of each file of each link.
type Store = HashMap<(LinkId, Kind), Vec<u8>>;

fn fetch(store: &Store, id: LinkId, kind: Kind) -> Option<Vec<u8>> {
    store.get(&(id, kind)).cloned()
}

fn entry(v: u32) -> Vec<u8> {
    v.encode()
}

fn write_link(
    store: &mut Store,
    previous: Option<LinkId>,
    with_snapshot: bool,
    entries: &[u32],
) -> Result<LinkId, Error> {
    let mut w = Writer::create(previous, 4);
    if with_snapshot {
        let file = previous.and_then(|p| fetch(store, p, Kind::Snapshot));
        w.with_snapshot(file)?;
    }
    for e in entries {
        if let Some(p) = w.seed_due() {
            w.seed(fetch(store, p, Kind::Delta))?;
        }
        w.write_unique(&entry(*e))?;
    }
    let link = w.finish()?;
    store.insert((link.id, Kind::Delta), link.delta);
    if let Some(s) = link.snapshot {
        store.insert((link.id, Kind::Snapshot), s);
    }
    Ok(link.id)
}

/// Opens the dictionary of `id`, returning it and the files fetched.
fn open_counting(store: &Store, id: LinkId) -> Result<(Reader, Vec<(LinkId, Kind)>), Error> {
    let mut opening = Reader::open(id, 4);
    let mut fetched = Vec::new();
    while let Some((link, kind)) = opening.request() {
        fetched.push((link, kind));
        opening.advance(fetch(store, link, kind))?;
    }
    Ok((opening.finish(), fetched))
}

fn open(store: &Store, id: LinkId) -> Result<Reader, Error> {
    open_counting(store, id).map(|(r, _)| r)
}

fn reload(store: &Store, reader: &mut Reader, id: LinkId) -> Result<(), Error> {
    let mut reloading = reader.reload(id);
    while let Some(link) = reloading.request() {
        reloading.advance(fetch(store, link, Kind::Delta))?;
    }
    reader.apply(reloading)
}

fn dictionary(reader: &Reader) -> Vec<u32> {
    (0..reader.len() as u32)
        .map(|i| u32::decode(reader.get_at(i).unwrap()).unwrap())
        .collect()
}

fn read_delta_footer(file: &[u8]) -> Result<delta::Footer, Error> {
    let mut reader = storage::Reader::new(file.to_vec());
    delta::Footer::read(&mut reader)
}

fn read_snapshot_footer(file: &[u8]) -> Result<snapshot::Footer, Error> {
    let mut reader = storage::Reader::new(file.to_vec());
    snapshot::Footer::read(&mut reader)
}

/// A snapshot of `id` holding the same entries as its delta.
fn snapshot_from_delta(store: &mut Store, id: LinkId) {
    let file = fetch(store, id, Kind::Delta).unwrap();
    let footer = read_delta_footer(&file).unwrap();
    let mut w = storage::Writer::new();
    w.write_bytes(&file[..file.len() - delta::SIZE]);
    let sfooter = snapshot::Footer { previous: footer.previous, index: footer.index, count: footer.total };
    sfooter.write(&mut w);
    store.insert((id, Kind::Snapshot), w.finish());
}

#[test]
fn root_delta_only() {
    let mut store = Store::new();
    let id0 = write_link(&mut store, None, false, &[1, 2]).unwrap();
    let file = fetch(&store, id0, Kind::Delta).unwrap();
    assert_eq!(file.len(), 38);
    assert_eq!(&file[36..], &[0, 0]);
    assert_eq!(&file[..8], &[0, 0, 0, 1, 0, 0, 0, 2]);
    assert_eq!(&file[8..24], &[0u8; 16]);
    let footer = read_delta_footer(&file).unwrap();
    assert_eq!(footer, delta::Footer { previous: None, index: 0, total: 2, count: 2 });
    let reader = open(&store, id0).unwrap();
    assert_eq!(reader.len(), 2);
    assert_eq!(reader.get_at(0).unwrap(), &vec![0, 0, 0, 1]);
    assert_eq!(reader.get_at(1).unwrap(), &vec![0, 0, 0, 2]);
    assert_eq!(reader.get_at(2), None);
}

#[test]
fn delta_chain_of_two() {
    let mut store = Store::new();
    let id0 = write_link(&mut store, None, false, &[1, 2]).unwrap();
    let id1 = write_link(&mut store, Some(id0), false, &[3]).unwrap();
    let footer = read_delta_footer(&fetch(&store, id1, Kind::Delta).unwrap()).unwrap();
    assert_eq!(footer, delta::Footer { previous: Some(id0), index: 1, total: 3, count: 1 });
    let reader = open(&store, id1).unwrap();
    assert_eq!(dictionary(&reader), vec![1, 2, 3]);
    for (i, v) in [1u32, 2, 3].iter().enumerate() {
        assert_eq!(reader.get_index_of(&entry(*v)), Some(i as u32));
    }
    assert_eq!(reader.get_index_of(&entry(4)), None);
}

#[test]
fn seeding_gives_first_identifier() {
    let mut store = Store::new();
    let id0 = write_link(&mut store, None, false, &[1, 2]).unwrap();
    let mut w = Writer::create(Some(id0), 4);
    assert_eq!(w.seed_due(), Some(id0));
    w.seed(fetch(&store, id0, Kind::Delta)).unwrap();
    assert_eq!(w.seed_due(), None);
    assert_eq!(w.write_unique(&entry(3)), Ok(2));
    assert_eq!(w.write_unique(&entry(4)), Ok(3));
}

#[test]
fn snapshot_write() {
    let mut store = Store::new();
    let id0 = write_link(&mut store, None, false, &[1, 2]).unwrap();
    snapshot_from_delta(&mut store, id0);
    let id1 = write_link(&mut store, Some(id0), true, &[3]).unwrap();
    let file = fetch(&store, id1, Kind::Snapshot).unwrap();
    assert_eq!(&file[..12], &[0, 0, 0, 1, 0, 0, 0, 2, 0, 0, 0, 3]);
    assert_eq!(file.len(), 12 + snapshot::SIZE);
    let footer = read_snapshot_footer(&file).unwrap();
    assert_eq!(footer, snapshot::Footer { previous: Some(id0), index: 1, count: 3 });
    let dfooter = read_delta_footer(&fetch(&store, id1, Kind::Delta).unwrap()).unwrap();
    assert_eq!(dfooter, delta::Footer { previous: Some(id0), index: 1, total: 3, count: 1 });
    let (reader, fetched) = open_counting(&store, id1).unwrap();
    assert_eq!(fetched, vec![(id1, Kind::Snapshot)]);
    assert_eq!(dictionary(&reader), vec![1, 2, 3]);
}

#[test]
fn reload_to_child() {
    let mut store = Store::new();
    let id0 = write_link(&mut store, None, false, &[1, 2]).unwrap();
    let mut reader = open(&store, id0).unwrap();
    let id1 = write_link(&mut store, Some(id0), false, &[3]).unwrap();
    assert_eq!(reader.len(), 2);
    reload(&store, &mut reader, id1).unwrap();
    assert_eq!(reader.len(), 3);
    assert_eq!(reader.latest(), id1);
    assert_eq!(reader.get_index_of(&entry(3)), Some(2));
}

#[test]
fn disconnected() {
    let mut store = Store::new();
    let id_a = write_link(&mut store, None, false, &[1]).unwrap();
    let id_b = write_link(&mut store, None, false, &[2]).unwrap();
    let mut reader = open(&store, id_a).unwrap();
    assert_eq!(
        reload(&store, &mut reader, id_b),
        Err(Error::Disconnected { latest: id_b, expected: id_a, got: id_b })
    );
    assert_eq!(reader.latest(), id_a);
    assert_eq!(dictionary(&reader), vec![1]);
}

#[test]
fn disconnected_reports_root_of_other_chain() {
    let mut store = Store::new();
    let id_a = write_link(&mut store, None, false, &[1]).unwrap();
    let id_b = write_link(&mut store, None, false, &[2]).unwrap();
    let id_c = write_link(&mut store, Some(id_b), false, &[3]).unwrap();
    let mut reader = open(&store, id_a).unwrap();
    assert_eq!(
        reload(&store, &mut reader, id_c),
        Err(Error::Disconnected { latest: id_c, expected: id_a, got: id_b })
    );
}

#[test]
fn version_mismatch() {
    let mut store = Store::new();
    let id0 = write_link(&mut store, None, false, &[1, 2]).unwrap();
    let mut file = fetch(&store, id0, Kind::Delta).unwrap();
    let n = file.len();
    file[n - 2] = 0;
    file[n - 1] = 1;
    store.insert((id0, Kind::Delta), file);
    assert_eq!(open(&store, id0).err(), Some(Error::Version { expected: 0, got: 1 }));
}

#[test]
fn version_mismatch_on_snapshot() {
    let mut store = Store::new();
    let id0 = write_link(&mut store, None, true, &[1, 2]).unwrap();
    let mut file = fetch(&store, id0, Kind::Snapshot).unwrap();
    let n = file.len();
    file[n - 2] = 0x12;
    file[n - 1] = 0x34;
    store.insert((id0, Kind::Snapshot), file);
    assert_eq!(open(&store, id0).err(), Some(Error::Version { expected: 0, got: 0x1234 }));
}

#[test]
fn file_shorter_than_footer() {
    let mut store = Store::new();
    let id = LinkId::from_u128(7);
    store.insert((id, Kind::Delta), vec![0; 10]);
    assert_eq!(open(&store, id).err(), Some(Error::FileSize { expected: 30, got: 10 }));
    store.insert((id, Kind::Snapshot), vec![0; 25]);
    assert_eq!(open(&store, id).err(), Some(Error::FileSize { expected: 26, got: 25 }));
}

#[test]
fn body_shorter_than_count() {
    let mut store = Store::new();
    let id = LinkId::from_u128(7);
    let mut w = storage::Writer::new();
    w.write_bytes(&[0, 0, 0, 1, 0, 0]);
    delta::Footer { previous: None, index: 0, total: 2, count: 2 }.write(&mut w);
    store.insert((id, Kind::Delta), w.finish());
    assert_eq!(open(&store, id).err(), Some(Error::FileSize { expected: 8, got: 6 }));
}

#[test]
fn missing_delta() {
    let store = Store::new();
    let id = LinkId::from_u128(9);
    assert_eq!(
        open(&store, id).err(),
        Some(Error::DoesNotExist { link: id, kind: Kind::Delta })
    );
}

#[test]
fn too_many_entries() {
    let mut store = Store::new();
    let id0 = LinkId::from_u128(5);
    let mut w = storage::Writer::new();
    delta::Footer { previous: None, index: 0, total: u32::MAX - 1, count: 0 }.write(&mut w);
    store.insert((id0, Kind::Delta), w.finish());
    let mut w = Writer::create(Some(id0), 4);
    w.seed(fetch(&store, id0, Kind::Delta)).unwrap();
    assert_eq!(w.write_unique(&entry(1)), Ok(u32::MAX - 1));
    assert_eq!(w.write_unique(&entry(2)), Err(Error::TooManyEntries));
}

#[test]
fn empty_link() {
    let w = Writer::create(None, 4);
    assert_eq!(w.finish().err(), Some(Error::Empty));
    let lazy = LazyWriter::create(None, 4);
    assert_eq!(lazy.finish().err(), Some(Error::Empty));
}

#[test]
fn snapshot_after_write() {
    let mut w = Writer::create(None, 4);
    assert_eq!(w.write_unique(&entry(1)), Ok(0));
    assert_eq!(w.with_snapshot(None), Err(Error::NotEmpty));
    let mut lazy = LazyWriter::create(None, 4);
    lazy.make_created(None).unwrap();
    assert_eq!(lazy.write_unique(&entry(1)), Ok(0));
    assert_eq!(lazy.with_snapshot(), Err(Error::NotEmpty));
}

#[test]
fn wrong_entry_size() {
    let mut w = Writer::create(None, 4);
    assert_eq!(w.write_unique(&[1, 2, 3]), Err(Error::FileSize { expected: 4, got: 3 }));
}

#[test]
fn missing_previous_snapshot() {
    let id0 = LinkId::from_u128(3);
    let mut w = Writer::create(Some(id0), 4);
    assert_eq!(
        w.with_snapshot(None),
        Err(Error::DoesNotExist { link: id0, kind: Kind::Snapshot })
    );
}

#[test]
fn round_trip_many() {
    let mut store = Store::new();
    let values: Vec<u32> = (0..100).map(|i| i * 7919 + 13).collect();
    let id = write_link(&mut store, None, false, &values).unwrap();
    let reader = open(&store, id).unwrap();
    assert_eq!(reader.len(), values.len());
    for (i, v) in values.iter().enumerate() {
        assert_eq!(reader.get_at(i as u32).unwrap(), &entry(*v));
        assert_eq!(reader.get_index_of(&entry(*v)), Some(i as u32));
    }
}

#[test]
fn chain_extension_and_stability() {
    let mut store = Store::new();
    let id0 = write_link(&mut store, None, false, &[10, 20]).unwrap();
    let id1 = write_link(&mut store, Some(id0), false, &[30]).unwrap();
    let id2 = write_link(&mut store, Some(id1), false, &[40, 50]).unwrap();
    let reader = open(&store, id2).unwrap();
    assert_eq!(dictionary(&reader), vec![10, 20, 30, 40, 50]);
    let first = open(&store, id0).unwrap();
    for k in 0..first.len() as u32 {
        let e = first.get_at(k).unwrap();
        assert_eq!(reader.get_at(k).unwrap(), e);
        assert_eq!(reader.get_index_of(e), Some(k));
    }
}

#[test]
fn snapshot_equivalence() {
    let mut store = Store::new();
    let id0 = write_link(&mut store, None, true, &[1, 2]).unwrap();
    let id1 = write_link(&mut store, Some(id0), true, &[3, 4]).unwrap();
    let (via_snapshot, fetched) = open_counting(&store, id1).unwrap();
    assert_eq!(fetched.len(), 1);
    let mut deltas_only = store.clone();
    deltas_only.remove(&(id0, Kind::Snapshot));
    deltas_only.remove(&(id1, Kind::Snapshot));
    let (via_deltas, fetched) = open_counting(&deltas_only, id1).unwrap();
    assert_eq!(fetched.len(), 4);
    assert_eq!(dictionary(&via_snapshot), dictionary(&via_deltas));
    assert_eq!(dictionary(&via_deltas), vec![1, 2, 3, 4]);
}

#[test]
fn snapshot_stops_the_walk() {
    let mut store = Store::new();
    let id0 = write_link(&mut store, None, true, &[1]).unwrap();
    let id1 = write_link(&mut store, Some(id0), true, &[2]).unwrap();
    let id2 = write_link(&mut store, Some(id1), false, &[3]).unwrap();
    store.insert((id0, Kind::Snapshot), vec![1, 2, 3]);
    store.insert((id0, Kind::Delta), vec![1, 2, 3]);
    let (reader, fetched) = open_counting(&store, id2).unwrap();
    assert_eq!(
        fetched,
        vec![(id2, Kind::Snapshot), (id2, Kind::Delta), (id1, Kind::Snapshot)]
    );
    assert_eq!(dictionary(&reader), vec![1, 2, 3]);
}

#[test]
fn reload_idempotence() {
    let mut store = Store::new();
    let id0 = write_link(&mut store, None, false, &[1, 2]).unwrap();
    let id1 = write_link(&mut store, Some(id0), false, &[3]).unwrap();
    let id2 = write_link(&mut store, Some(id1), false, &[4]).unwrap();
    let mut reader = open(&store, id0).unwrap();
    reload(&store, &mut reader, id0).unwrap();
    assert_eq!(dictionary(&reader), vec![1, 2]);
    reload(&store, &mut reader, id2).unwrap();
    reload(&store, &mut reader, id2).unwrap();
    assert_eq!(dictionary(&reader), vec![1, 2, 3, 4]);
    assert_eq!(reader.latest(), id2);
}

#[test]
fn lazy_writer_creates_on_first_write() {
    let mut store = Store::new();
    let id0 = write_link(&mut store, None, true, &[1, 2]).unwrap();
    let mut lazy = LazyWriter::create(Some(id0), 4);
    lazy.with_snapshot().unwrap();
    assert_eq!(lazy.snapshot_due(), Some(id0));
    lazy.make_created(fetch(&store, id0, Kind::Snapshot)).unwrap();
    assert_eq!(lazy.seed_due(), None);
    assert_eq!(lazy.write_unique(&entry(3)), Ok(2));
    let link = lazy.finish().unwrap();
    let footer = read_snapshot_footer(link.snapshot.as_ref().unwrap()).unwrap();
    assert_eq!(footer, snapshot::Footer { previous: Some(id0), index: 1, count: 3 });
}

#[test]
fn paths_of_files() {
    let id = LinkId::from_u128(0x0123_4567_89ab_cdef_0011_2233_4455_6677);
    assert_eq!(id.to_text(), "01234567-89ab-cdef-0011-223344556677");
    let root = storage::Storage::new();
    assert_eq!(root.path(id, Kind::Delta), "01234567-89ab-cdef-0011-223344556677.delta");
    let based = storage::Storage::new_in("chains/one".to_string());
    assert_eq!(
        based.path(id, Kind::Snapshot),
        "chains/one/01234567-89ab-cdef-0011-223344556677.snapshot"
    );
}

#[test]
fn random_link_ids() {
    let a = LinkId::random();
    let b = LinkId::random();
    assert_ne!(a.as_u128(), 0);
    assert_ne!(a, b);
    assert_eq!(a.as_u128() >> 76 & 0xf, 4);
}

#[test]
fn framed_integers() {
    let mut w = storage::Writer::new();
    w.write_u16(0x0102);
    w.write_u32(0x0304_0506);
    w.write_u64(0x0708_090a_0b0c_0d0e);
    w.write_u128(1);
    assert_eq!(w.file_size(), 30);
    let bytes = w.finish();
    assert_eq!(&bytes[..6], &[1, 2, 3, 4, 5, 6]);
    let mut r = storage::Reader::new(bytes);
    assert_eq!(r.read_u16(), Ok(0x0102));
    assert_eq!(r.read_u32(), Ok(0x0304_0506));
    assert_eq!(r.read_u64(), Ok(0x0708_090a_0b0c_0d0e));
    assert_eq!(r.read_u128(), Ok(1));
    assert_eq!(r.read_u16(), Err(Error::FileSize { expected: 32, got: 30 }));
    r.goto(-4).unwrap();
    assert_eq!(r.read_bytes(4), Ok(vec![0, 0, 0, 1]));
    assert_eq!(r.goto(-31), Err(Error::FileSize { expected: 31, got: 30 }));
    r.set_file_size(10);
    r.goto(2).unwrap();
    assert_eq!(r.range(8), Ok((2, 10)));
    assert_eq!(r.range(9), Err(Error::FileSize { expected: 11, got: 10 }));
}

#[test]
fn copy_from_reader_tail() {
    let mut r = storage::Reader::new(vec![1, 2, 3, 4, 5]);
    r.set_file_size(4);
    r.goto(1).unwrap();
    let mut w = storage::Writer::new();
    w.write_bytes(&[9]);
    w.copy_from(r);
    assert_eq!(w.finish(), vec![9, 2, 3, 4]);
}

#[test]
fn entries_index() {
    let mut entries = chaindict::entries::Entries::new();
    assert!(entries.is_empty());
    assert_eq!(entries.insert_unique(vec![1, 2]), Ok(0));
    assert_eq!(entries.insert_unique(vec![3, 4]), Ok(1));
    entries.reserve(100);
    for i in 0..200u32 {
        assert_eq!(entries.insert_unique(i.encode()), Ok(i + 2));
    }
    assert_eq!(entries.len(), 202);
    assert_eq!(entries.get_index_of(&[3, 4]), Some(1));
    assert_eq!(entries.get_index_of(&150u32.encode()), Some(152));
    assert_eq!(entries.get_index_of(&[5, 6]), None);
    assert_eq!(entries.get_at(0), Some(&vec![1, 2]));
    assert_eq!(entries.get_at(202), None);
    assert_eq!(entries.iter().len(), 202);
    assert_eq!(entries.iter()[1], vec![3, 4]);
}

#[test]
fn entry_hash_is_fnv1a() {
    assert_eq!(chaindict::entries::hash_entry(&[]), 0xcbf2_9ce4_8422_2325);
    assert_eq!(chaindict::entries::hash_entry(b"a"), 0xaf63_dc4c_8601_ec8c);
}

#[test]
fn integer_entries() {
    assert_eq!(0x0102_0304u32.encode(), vec![1, 2, 3, 4]);
    assert_eq!(u32::decode(&[1, 2, 3, 4]), Some(0x0102_0304));
    assert_eq!(u32::decode(&[1, 2, 3]), None);
    assert_eq!(u64::decode(&7u64.encode()), Some(7));
    assert_eq!(u128::decode(&u128::MAX.encode()), Some(u128::MAX));
    assert_eq!(<u64 as Entry>::size(), 8);
}

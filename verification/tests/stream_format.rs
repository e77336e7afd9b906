//! The fragmented MP4 reader on a stream built here byte by byte, in the shape of YouTube's
//! itag 140: `ftyp`, `moov`, `sidx` of 22 fragments, then the first `moof`.
use melogold::playback::fmp4::{moof_end, parse_fragment, parse_index, FormatError, Index};
use melogold::playback::stream::{fragment_from_head, head_step, keeps_fragment, load_start, absorb, HeadStep};

fn put_box(kind: &[u8; 4], content: &[u8]) -> Vec<u8> {
    let mut b = Vec::new();
    b.extend_from_slice(&((content.len() + 8) as u32).to_be_bytes());
    b.extend_from_slice(kind);
    b.extend_from_slice(content);
    b
}

fn be32(v: u32) -> [u8; 4] {
    v.to_be_bytes()
}

const SAMPLES: usize = 431;
const SAMPLE_SIZE: u32 = 371;
const FRAGMENT_TICKS: u32 = 440_320;
const LAST_TICKS: u32 = 150_549;

fn fragment_sizes() -> Vec<u32> {
    let first = 1824 + SAMPLES as u32 * SAMPLE_SIZE;
    let mut sizes = vec![first];
    sizes.extend(std::iter::repeat(156_510).take(20));
    sizes.push(156_503);
    sizes
}

fn moov() -> Vec<u8> {
    let mut mdhd = Vec::new();
    mdhd.extend_from_slice(&[0, 0, 0, 0]);
    mdhd.extend_from_slice(&be32(0));
    mdhd.extend_from_slice(&be32(0));
    mdhd.extend_from_slice(&be32(44_100));
    mdhd.extend_from_slice(&be32(9_397_269));
    mdhd.extend_from_slice(&[0x55, 0xC4, 0, 0]);
    let mdhd = put_box(b"mdhd", &mdhd);

    let mut asc = vec![0x12, 0x10];
    asc.extend_from_slice(&[0; 14]);
    let mut decoder_config = vec![0x40, 0x15, 0, 0, 0];
    decoder_config.extend_from_slice(&be32(130_000));
    decoder_config.extend_from_slice(&be32(128_000));
    decoder_config.push(0x05);
    decoder_config.push(asc.len() as u8);
    decoder_config.extend_from_slice(&asc);
    let mut es = vec![0, 1, 0, 0x04, decoder_config.len() as u8];
    es.extend_from_slice(&decoder_config);
    let mut esds = vec![0, 0, 0, 0, 0x03, es.len() as u8];
    esds.extend_from_slice(&es);
    let esds = put_box(b"esds", &esds);

    let mut mp4a = vec![0, 0, 0, 0, 0, 0, 0, 1];
    mp4a.extend_from_slice(&[0; 8]);
    mp4a.extend_from_slice(&[0, 2, 0, 16]);
    mp4a.extend_from_slice(&[0; 4]);
    mp4a.extend_from_slice(&be32(44_100 << 16));
    mp4a.extend_from_slice(&esds);
    let mp4a = put_box(b"mp4a", &mp4a);
    let mut stsd = vec![0, 0, 0, 0, 0, 0, 0, 1];
    stsd.extend_from_slice(&mp4a);
    let stbl = put_box(b"stbl", &put_box(b"stsd", &stsd));
    let minf = put_box(b"minf", &stbl);
    let mut mdia = mdhd;
    mdia.extend_from_slice(&minf);
    let trak = put_box(b"trak", &put_box(b"mdia", &mdia));

    let mut trex = vec![0, 0, 0, 0];
    trex.extend_from_slice(&be32(1));
    trex.extend_from_slice(&be32(1));
    trex.extend_from_slice(&be32(1024));
    trex.extend_from_slice(&be32(0));
    let mvex = put_box(b"mvex", &put_box(b"trex", &trex));
    let mut content = trak;
    content.extend_from_slice(&mvex);
    put_box(b"moov", &content)
}

fn sidx() -> Vec<u8> {
    let mut s = vec![0, 0, 0, 0];
    s.extend_from_slice(&be32(1));
    s.extend_from_slice(&be32(44_100));
    s.extend_from_slice(&be32(0));
    s.extend_from_slice(&be32(0));
    s.extend_from_slice(&[0, 0, 0, 22]);
    for (k, size) in fragment_sizes().iter().enumerate() {
        s.extend_from_slice(&be32(*size));
        s.extend_from_slice(&be32(if k == 21 { LAST_TICKS } else { FRAGMENT_TICKS }));
        s.extend_from_slice(&be32(0x9000_0000));
    }
    put_box(b"sidx", &s)
}

fn first_moof() -> Vec<u8> {
    let mut mfhd = vec![0, 0, 0, 0];
    mfhd.extend_from_slice(&be32(1));
    let mut tfhd = vec![0, 0, 0, 0x18];
    tfhd.extend_from_slice(&be32(1));
    tfhd.extend_from_slice(&be32(1024));
    tfhd.extend_from_slice(&be32(SAMPLE_SIZE));
    let mut tfdt = vec![0, 0, 0, 0];
    tfdt.extend_from_slice(&be32(0));
    let mut trun = vec![0, 0, 0x02, 0x01];
    trun.extend_from_slice(&be32(SAMPLES as u32));
    trun.extend_from_slice(&be32(1816 + 8));
    for _ in 0..SAMPLES {
        trun.extend_from_slice(&be32(SAMPLE_SIZE));
    }
    let mut traf = put_box(b"tfhd", &tfhd);
    traf.extend_from_slice(&put_box(b"tfdt", &tfdt));
    traf.extend_from_slice(&put_box(b"trun", &trun));
    let mut moof = put_box(b"mfhd", &mfhd);
    moof.extend_from_slice(&put_box(b"traf", &traf));
    put_box(b"moof", &moof)
}

/// The first 2835 bytes of the stream: the headers and the first `moof`, no sound.
fn head() -> Vec<u8> {
    let mut head = put_box(b"ftyp", b"dash\0\0\0\0iso6mp41");
    head.extend_from_slice(&moov());
    let sidx = sidx();
    let pad = 1019 - head.len() - sidx.len();
    head.extend_from_slice(&put_box(b"free", &vec![0; pad - 8]));
    head.extend_from_slice(&sidx);
    assert_eq!(head.len(), 1019);
    head.extend_from_slice(&first_moof());
    assert_eq!(head.len(), 2835);
    head
}

fn index() -> Index {
    parse_index(&head()).unwrap()
}

#[test]
fn index_of_a_real_stream() {
    let index = index();
    assert_eq!(index.track.sample_rate, 44100);
    assert_eq!(index.track.channels, 2);
    assert_eq!(index.track.object_type, 2, "AAC-LC");
    assert_eq!(index.track.audio_specific_config[..2], [0x12, 0x10]);
    assert_eq!(index.fragments.len(), 22);
    assert_eq!(index.header_end, 1019);
    assert_eq!(index.fragments[0].offset, 1019);
    assert_eq!(index.total_size(), 3_449_447, "as the format's contentLength");
    let seconds = index.duration() as f64 / 1000.0;
    assert!((seconds - 213.09).abs() < 0.05, "{seconds}");
    assert_eq!(index.fragment_at(0), 0);
    assert_eq!(index.fragment_at(150_000), 15);
    assert_eq!(index.fragment_at(10_000_000), 21);
}

#[test]
fn truncated_head_asks_for_more() {
    assert_eq!(parse_index(&head()[..500]).err(), Some(FormatError("truncated")));
}

#[test]
fn samples_of_the_first_fragment() {
    let head = head();
    let index = parse_index(&head).unwrap();
    let first = index.fragments[0];
    let mut data = vec![0u8; first.size as usize];
    let have = head.len() - first.offset as usize;
    data[..have].copy_from_slice(&head[first.offset as usize..]);
    assert_eq!(moof_end(&data[..have]), Some(1816));
    let samples = parse_fragment(&data, have, &index.track).unwrap();
    assert!(samples.len() > 400, "{}", samples.len());
    assert_eq!(samples[0].offset, 1816 + 8, "the first frame right after the mdat header");
    assert_eq!(samples[0].time_ticks, 0);
    assert!(samples.iter().all(|s| s.duration_ticks == 1024));
    let last = samples.last().unwrap();
    assert_eq!(last.offset + last.size, first.size as usize, "the frames fill mdat to its end");
    assert!(parse_fragment(&data, 100, &index.track).unwrap().is_empty(), "no frames without a whole moof");
}

#[test]
fn fragment_starts_from_the_head() {
    let head = head();
    let index = parse_index(&head).unwrap();
    let data = fragment_from_head(&index, &head, 0).unwrap();
    assert_eq!(data.available, 1816);
    assert_eq!(data.bytes.len(), index.fragments[0].size as usize);
    assert_eq!(data.samples.len(), 431);
    assert!(fragment_from_head(&index, &head, 1).is_none(), "the head does not reach the second fragment");
    assert!(fragment_from_head(&index, &head, 99).is_none());
}

#[test]
fn short_heads_are_read_further() {
    let head = head();
    match head_step(&head[..500]) {
        HeadStep::ReadMore { offset, len } => {
            assert_eq!(offset, 500);
            assert_eq!(len, 262_144);
        }
        _ => panic!("a cut-short head asks for more"),
    }
    match head_step(&head) {
        HeadStep::Ready(index) => assert_eq!(index.fragments.len(), 22),
        _ => panic!("a whole head gives the index"),
    }
    match head_step(b"\0\0\0\x08moof") {
        HeadStep::Fail(error) => assert_eq!(error.message, "Unsupported stream: no moov"),
        _ => panic!("a head without moov is refused"),
    }
}

#[test]
fn fragments_load_from_head_then_network() {
    let head = head();
    let index = parse_index(&head).unwrap();
    let mut load = load_start(&index, &head, 0).unwrap();
    assert_eq!(load.have, 1816);
    assert_eq!(load.offset, 1019);
    absorb(&mut load, &[7, 7, 7]);
    assert_eq!(load.have, 1819);
    assert_eq!(load.bytes[1816..1820], [7, 7, 7, 0]);
    assert!(load_start(&index, &head, 22).is_err());
}

#[test]
fn neighbours_are_kept() {
    assert!(keeps_fragment(3, 5));
    assert!(keeps_fragment(8, 5));
    assert!(!keeps_fragment(2, 5));
    assert!(!keeps_fragment(9, 5));
}

//! Generative checks over the parser: hostile bytes must be rejected rather
//! than cause a panic, and anything that is serialized must parse back
//! identically. They use a fixed-seed generator, so a failure reproduces.

use nififf3::{ByteReader, FlowFile, FlowFiles, Limits};

struct Rng(u64);

impl Rng {
    fn next_u64(&mut self) -> u64 {
        self.0 = self
            .0
            .wrapping_mul(6_364_136_223_846_793_005)
            .wrapping_add(1_442_695_040_888_963_407);
        self.0 ^ (self.0 >> 33)
    }

    fn below(&mut self, n: usize) -> usize {
        if n == 0 {
            return 0;
        }
        let value = self.next_u64() % n as u64;
        usize::try_from(value).expect("a value below a usize fits in a usize")
    }

    fn bytes(&mut self, len: usize) -> Vec<u8> {
        (0..len).map(|_| (self.next_u64() & 0xff) as u8).collect()
    }

    fn text(&mut self, len: usize) -> String {
        const ALPHABET: [&str; 8] = ["a", "Z", "0", ".", "_", "é", "→", "🙂"];
        (0..len).map(|_| ALPHABET[self.below(ALPHABET.len())]).collect()
    }
}

fn plausible(rng: &mut Rng) -> Vec<u8> {
    let attributes: Vec<(String, String)> = (0..rng.below(4))
        .map(|_| {
            let key_len = rng.below(8) + 1;
            let key = rng.text(key_len);
            let value_len = rng.below(12);
            (key, rng.text(value_len))
        })
        .collect();
    let content_len = rng.below(40);
    FlowFile::builder()
        .attributes(attributes)
        .content(rng.bytes(content_len))
        .to_bytes()
}

fn walk(bytes: &[u8], limits: Limits) -> usize {
    let mut flow_files = FlowFiles::with_limits(ByteReader::new(bytes), limits);
    let mut count = 0;
    while flow_files.next().is_some() {
        count += 1;
    }
    count
}

#[test]
fn arbitrary_input_is_rejected_rather_than_fatal() {
    let mut rng = Rng(0x5eed_1234);

    for i in 0..4000 {
        let bytes = match i % 3 {
            0 => {
                let len = rng.below(64) + 8;
                let mut bytes = rng.bytes(len);
                if i % 2 == 0 {
                    bytes[..7].copy_from_slice(b"NiFiFF3");
                }
                bytes
            }
            1 => {
                let mut bytes = plausible(&mut rng);
                for _ in 0..=rng.below(4) {
                    let at = rng.below(bytes.len());
                    bytes[at] = (rng.next_u64() & 0xff) as u8;
                }
                bytes
            }
            _ => {
                let mut bytes = plausible(&mut rng);
                let keep = rng.below(bytes.len());
                bytes.truncate(keep);
                bytes
            }
        };

        for limits in [Limits::unlimited(), Limits::recommended()] {
            // Whatever these return, returning at all is the assertion.
            let _ = FlowFile::from_bytes_with_limits(&bytes, limits);
            let _ = FlowFile::from_vec_with_limits(bytes.clone(), limits);
            let _ = FlowFile::parse_with_limits(ByteReader::new(&bytes), limits)
                .and_then(|flow_file| flow_file.into_memory().map_err(Into::into));
            let _ = walk(&bytes, limits);
        }
    }
}

#[test]
fn what_is_serialized_parses_back_identically() {
    let mut rng = Rng(0xd0d0_5678);

    for _ in 0..300 {
        let attributes: Vec<(String, String)> = (0..rng.below(8))
            .map(|_| {
                let key_len = rng.below(12) + 1;
                let key = rng.text(key_len);
                let value_len = rng.below(20);
                let value = rng.text(value_len);
                (key, value)
            })
            .collect();
        let content_len = rng.below(300);
        let content = rng.bytes(content_len);

        let flow_file = FlowFile::builder().attributes(attributes).content(content.clone());
        let bytes = flow_file.to_bytes();

        assert_eq!(FlowFile::from_bytes(&bytes).unwrap(), flow_file);
        assert_eq!(FlowFile::from_vec(bytes.clone()).unwrap(), flow_file);

        let mut stream = bytes.clone();
        stream.extend_from_slice(&bytes);
        let mut flow_files = FlowFiles::new(ByteReader::new(&stream));
        let mut parsed = Vec::new();
        while let Some(next) = flow_files.next() {
            parsed.push(next.unwrap());
        }
        assert_eq!(parsed, [flow_file.clone(), flow_file]);
    }
}

#[test]
fn the_field_length_boundary_round_trips() {
    for len in [0, 1, 0xFFFE, 0xFFFF, 0x1_0000, 0x1_0001] {
        let value = "v".repeat(len);
        let flow_file = FlowFile::builder().attribute("k", &value).content(Vec::new());
        let parsed = FlowFile::from_bytes(&flow_file.to_bytes()).unwrap();
        assert_eq!(parsed, flow_file, "value of {len} bytes");
    }

    for count in [0xFFFE, 0xFFFF, 0x1_0000] {
        let flow_file = FlowFile::builder()
            .attributes((0..count).map(|i| (format!("k{i}"), "v".to_string())).collect())
            .content(Vec::new());
        let parsed = FlowFile::from_bytes(&flow_file.to_bytes()).unwrap();
        assert_eq!(parsed.attributes().len(), count, "{count} attributes");
    }
}

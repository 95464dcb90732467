use aidoku_sources::soraraw::Genre;
use aidoku_sources::soraraw::header_size;
use aidoku_sources::model::{ContentRating, MangaStatus, Viewer};
use aidoku_sources::soraraw::{
    authors, chapter_key, chapter_url, contains_ignore_ascii_case, content_rating, cover,
    decode_base64, decode_hex, decrypt_path, deobfuscate, description, jpeg_size, manga_url,
    paginated, status, viewer, webp_size, CatalogueEntry, Pagination,
};

#[test]
fn pagination_reads_the_last_page() {
    assert!(Pagination { current_page: 1, total_page: 3 }.has_next_page());
    assert!(!Pagination { current_page: 3, total_page: 3 }.has_next_page());
}

#[test]
fn urls() {
    assert_eq!(manga_url("https://x.test", "slug"), "https://x.test/manga/slug");
    assert_eq!(chapter_url("https://x.test", "one", "one-ch-2"), "https://x.test/manga/one/ch-2");
    assert_eq!(chapter_url("https://x.test", "one", "other"), "https://x.test/manga/one/other");
    assert_eq!(chapter_key(12, -3), "12/-3");
    assert_eq!(paginated("https://x.test/newest", 1), "https://x.test/newest");
    assert_eq!(paginated("https://x.test/newest", 4), "https://x.test/newest/page/4");
}

#[test]
fn listing_fields() {
    assert_eq!(cover("https://t.test", Some("full".into()), Some("f.jpg")).as_deref(), Some("full"));
    assert_eq!(cover("https://t.test", Some(String::new()), Some("f.jpg")).as_deref(), Some("https://t.test/f.jpg"));
    assert_eq!(cover("https://t.test", None, Some("")), None);
    assert_eq!(authors(Some(" A , ,B ")), Some(vec!["A".to_string(), "B".to_string()]));
    assert_eq!(authors(Some(" , ")), None);
    assert_eq!(status(Some("complete")), MangaStatus::Completed);
    assert_eq!(status(Some("incomplete")), MangaStatus::Ongoing);
    assert_eq!(status(None), MangaStatus::Unknown);
    assert_eq!(content_rating(Some("yes")), ContentRating::NSFW);
    assert_eq!(content_rating(Some("no")), ContentRating::Safe);
    assert_eq!(content_rating(Some("maybe")), ContentRating::Unknown);
    assert_eq!(viewer(&["action".into(), "kaigai-manga".into()]), Viewer::Webtoon);
    assert_eq!(viewer(&["korean-webtoon".into()]), Viewer::Webtoon);
    assert_eq!(viewer(&["action".into()]), Viewer::RightToLeft);
}

#[test]
fn catalogue_search() {
    assert!(contains_ignore_ascii_case("One Piece", "piece"));
    assert!(contains_ignore_ascii_case("anything", ""));
    assert!(!contains_ignore_ascii_case("short", "longer needle"));
    let entry = CatalogueEntry {
        name: "Naruto".into(),
        slug: "naruto".into(),
        alt_names: Some("ナルト, Uzumaki".into()),
        author: Some("Kishimoto".into()),
        img: None,
        kind: None,
        is_adult: None,
    };
    assert!(entry.matches("uzumaki"));
    assert!(entry.matches("ナルト"));
    assert!(entry.matches_author("KISHI"));
    assert!(!entry.matches("bleach"));
}

#[test]
fn image_headers() {
    let mut jpeg = vec![0xFF, 0xD8, 0xFF, 0xE0, 0x00, 0x04, 0x00, 0x00];
    jpeg.extend_from_slice(&[0xFF, 0xC0, 0x00, 0x11, 0x08, 0x01, 0x2C, 0x00, 0xC8]);
    assert_eq!(jpeg_size(&jpeg), Some((200, 300)));
    assert_eq!(jpeg_size(&[0x89, 0x50]), None);
    let mut webp = b"RIFF\0\0\0\0WEBPVP8 ".to_vec();
    webp.extend_from_slice(&[0u8; 7]);
    webp.extend_from_slice(&[0x9D, 0x01, 0x2A, 0x40, 0x81, 0x20, 0x03]);
    assert_eq!(webp_size(&webp), Some((0x140, 0x320)));
    webp[8] = b'X';
    assert_eq!(webp_size(&webp), None);
}

#[test]
fn base64_and_hex() {
    assert_eq!(decode_base64("aGVsbG8="), Some(b"hello".to_vec()));
    assert_eq!(decode_base64("aGVs bG8"), Some(b"hello".to_vec()));
    assert_eq!(decode_base64("-_-_"), Some(vec![0xFB, 0xFF, 0xBF]));
    assert_eq!(decode_base64("aGVsbG8=garbage!"), Some(b"hello".to_vec()));
    assert_eq!(decode_base64("a!"), None);
    assert_eq!(decode_hex("0aFf"), Some(vec![0x0A, 0xFF]));
    assert_eq!(decode_hex("abc"), None);
    assert_eq!(decode_hex("zz"), None);
}

#[test]
fn deobfuscates_payloads() {
    // "\u{feff}[1] \0" xored with the key [1, 2]
    let plain = "\u{feff}[1] \0".as_bytes().to_vec();
    let key = [1u8, 2u8];
    let xored: Vec<u8> = plain.iter().enumerate().map(|(i, b)| b ^ key[i % 2]).collect();
    let encoded = encode(&xored);
    assert_eq!(deobfuscate(&encoded, &key).as_deref(), Some("[1]"));
    assert_eq!(deobfuscate(&encoded, &[]), None);
}

fn encode(bytes: &[u8]) -> String {
    const A: &[u8] = b"ABCDEFGHIJKLMNOPQRSTUVWXYZabcdefghijklmnopqrstuvwxyz0123456789+/";
    let mut out = String::new();
    for chunk in bytes.chunks(3) {
        let b = [chunk[0], *chunk.get(1).unwrap_or(&0), *chunk.get(2).unwrap_or(&0)];
        let n = ((b[0] as u32) << 16) | ((b[1] as u32) << 8) | b[2] as u32;
        for k in 0..=chunk.len() {
            out.push(A[((n >> (18 - 6 * k)) & 63) as usize] as char);
        }
    }
    out
}

#[test]
fn decrypts_paths_with_a_known_aes_vector() {
    // FIPS-197 style check through the counter mode: a zero key, a zero
    // counter, so the first block's keystream is AES-256(0, 0).
    let key_hex = "0000000000000000000000000000000000000000000000000000000000000000";
    let keystream = [
        0xdc, 0x95, 0xc0, 0x78, 0xa2, 0x40, 0x89, 0x89, 0xad, 0x48, 0xa2, 0x14, 0x92, 0x84, 0x20, 0x87,
    ];
    let path = b"/p/1.jpg";
    let mut payload = vec![0u8; 16];
    for (i, b) in path.iter().enumerate() {
        payload.push(b ^ keystream[i]);
    }
    let secret = [0u8];
    let encoded = encode(&payload);
    assert_eq!(decrypt_path(&encoded, key_hex, &secret).as_deref(), Some("/p/1.jpg"));
    assert_eq!(decrypt_path(&encoded, "00", &secret), None);
    assert_eq!(decrypt_path(&encode(&[0u8; 16]), key_hex, &secret), None);
}

#[test]
fn synopsis_paragraphs() {
    assert_eq!(description(Some("plain".into()), None).as_deref(), Some("plain"));
    assert_eq!(
        description(Some(String::new()), Some(vec![Some("a".into()), None, Some(String::new()), Some("b".into())]))
            .as_deref(),
        Some("a\n\nb")
    );
    assert_eq!(description(None, Some(vec![None])), None);
    assert_eq!(description(None, None), None);
}

#[test]
fn image_sizes_read_as_jpeg_then_webp() {
    let mut jpeg = vec![0xFF, 0xD8, 0xFF, 0xE0, 0x00, 0x04, 0x00, 0x00];
    jpeg.extend_from_slice(&[0xFF, 0xC0, 0x00, 0x11, 0x08, 0x01, 0x2C, 0x00, 0xC8]);
    assert_eq!(header_size(&jpeg), Some((200, 300)));
    let mut webp = b"RIFF\0\0\0\0WEBPVP8 ".to_vec();
    webp.extend_from_slice(&[0u8; 7]);
    webp.extend_from_slice(&[0x9D, 0x01, 0x2A, 0x40, 0x81, 0x20, 0x03]);
    assert_eq!(header_size(&webp), Some((0x140, 0x320)));
    assert_eq!(header_size(b"GIF89a"), None);
}

#[test]
fn genres_become_trimmed_tags() {
    let g = Genre { name: String::from(" 恋愛 "), slug: String::from("romance") };
    assert_eq!(g.into_tag().as_deref(), Some("恋愛"));
    let g = Genre { name: String::from("  "), slug: String::from("x") };
    assert_eq!(g.into_tag(), None);
}

#[test]
fn base64_in_either_alphabet_with_or_without_padding_decodes() {
    let bytes: Vec<u8> = vec![0xfb, 0xff, 0xbf, 0x00, 0x41];
    assert_eq!(decode_base64("+/+/AEE=").as_deref(), Some(&bytes[..]));
    assert_eq!(decode_base64("-_-_AEE").as_deref(), Some(&bytes[..]));
    assert_eq!(decode_base64(" +/+/\r\nAE\tE= ").as_deref(), Some(&bytes[..]));
    assert_eq!(decode_base64("TWE=").as_deref(), Some(&b"Ma"[..]));
    assert_eq!(decode_base64("TQ==").as_deref(), Some(&b"M"[..]));
    assert_eq!(decode_base64("").as_deref(), Some(&b""[..]));
}

#[test]
fn base64_fails_only_on_a_stray_character_before_padding() {
    assert_eq!(decode_base64("TW*E"), None);
    assert_eq!(decode_base64("TWE=*"), Some(b"Ma".to_vec()));
    assert_eq!(decode_base64("TWE=!!"), Some(b"Ma".to_vec()));
    assert_eq!(decode_base64("é"), None);
}

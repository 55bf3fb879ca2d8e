use faqih_ai::document_text::{
    chunk_text, decode_xml_entities, hard_char_chunks, docx_xml_text, document_kind,
    file_not_found, recommended_chunk_overlap, split_into_units, split_paragraphs, split_sentences,
    docx_text_from_bytes, DocumentKind,
};
use faqih_ai::text::collapse_ws;

#[test]
fn short_text_is_single_chunk() {
    let text = "Qisqa hujjat. Bitta jumla.";
    let chunks = chunk_text(text, 2000, 600);
    assert_eq!(chunks.len(), 1);
    assert!(chunks[0].contains("Qisqa"));
}

#[test]
fn prefers_sentence_boundaries() {
    let mut text = String::new();
    for i in 1..=40 {
        text.push_str(&format!(
            "Band {i}. Tomonlar majburiyatni bajaradi va muddatni kuzatadi. "
        ));
    }
    let max = 500usize;
    let chunks = chunk_text(&text, max, 150);
    assert!(chunks.len() > 1);
    for c in &chunks {
        assert!(
            c.chars().count() <= max + 80,
            "chunk unexpectedly oversized: {}",
            c.chars().count()
        );
        let trimmed = c.trim_end();
        assert!(
            trimmed.ends_with('.') || trimmed.chars().count() > max.saturating_sub(50),
            "expected sentence-ish end, got: …{}",
            &trimmed[trimmed.len().saturating_sub(20)..]
        );
    }
}

#[test]
fn overlap_keeps_shared_content() {
    let mut text = String::new();
    for i in 1..=30 {
        text.push_str(&format!("Jumla raqami {i} bu yerda turadi. "));
    }
    let chunks = chunk_text(&text, 400, 200);
    assert!(chunks.len() >= 2);
    let a = &chunks[0];
    let b = &chunks[1];
    let a_words: Vec<&str> = a.split_whitespace().collect();
    let shared = a_words
        .iter()
        .rev()
        .take(12)
        .any(|w| b.contains(w) && w.len() > 3);
    assert!(shared, "expected overlap between adjacent chunks");
}

#[test]
fn recommended_overlap_is_about_one_third() {
    assert_eq!(recommended_chunk_overlap(3072), 1024);
    assert!(recommended_chunk_overlap(2000) >= 600);
}

#[test]
fn recommended_overlap_is_clamped() {
    assert_eq!(recommended_chunk_overlap(0), 600);
    assert_eq!(recommended_chunk_overlap(1800), 600);
    assert_eq!(recommended_chunk_overlap(3000), 1000);
    assert_eq!(recommended_chunk_overlap(7500), 2500);
    assert_eq!(recommended_chunk_overlap(100_000), 2500);
}

#[test]
fn blank_text_has_no_chunks() {
    assert!(chunk_text("", 2000, 600).is_empty());
    assert!(chunk_text(" \n\t  ", 2000, 600).is_empty());
}

#[test]
fn short_text_chunk_is_trimmed() {
    let chunks = chunk_text("  Qisqa hujjat.  \n", 2000, 600);
    assert_eq!(chunks, vec!["Qisqa hujjat.".to_string()]);
}

#[test]
fn tiny_budget_is_raised_to_sixty_four() {
    let text = "a".repeat(64);
    assert_eq!(chunk_text(&text, 10, 0).len(), 1);
}

#[test]
fn long_text_chunks_are_non_empty_and_within_budget() {
    let mut text = String::new();
    for i in 1..=60 {
        text.push_str(&format!("Shartnoma bandi {i} ijrochi tomonidan bajariladi. "));
    }
    let max = 300usize;
    let chunks = chunk_text(&text, max, 100);
    assert!(chunks.len() > 1);
    for c in &chunks {
        assert!(!c.trim().is_empty());
        assert!(c.chars().count() <= max);
    }
    for w in chunks.windows(2) {
        assert_ne!(w[0], w[1]);
    }
}

#[test]
fn unbroken_text_is_cut_by_characters() {
    let text: Vec<char> = "x".repeat(200).chars().collect();
    let chunks = hard_char_chunks(&text, 64, 10);
    let lens: Vec<usize> = chunks.iter().map(|c| c.len()).collect();
    assert_eq!(lens, vec![64, 64, 64, 38]);
}

#[test]
fn oversized_last_unit_is_split_by_characters() {
    let chunks = chunk_text(&"a".repeat(100), 64, 0);
    assert_eq!(chunks, vec!["a".repeat(64), "a".repeat(36)]);
    // Pieces equal to the one before are dropped by the cleaning step.
    let lens: Vec<usize> = chunk_text(&"x".repeat(200), 64, 10).iter().map(|c| c.len()).collect();
    assert_eq!(lens, vec![64, 8]);
}

#[test]
fn unit_after_an_oversized_unit_stays_within_budget() {
    let mut text = "y".repeat(150);
    text.push_str(". ");
    for i in 1..=10 {
        text.push_str(&format!("Keyingi band {i} shu yerda. "));
    }
    let chunks = chunk_text(&text, 64, 20);
    assert!(chunks.len() > 3);
    for c in &chunks {
        assert!(c.chars().count() <= 64, "chunk over budget: {c}");
    }
    assert!(chunks.iter().any(|c| c.contains("Keyingi band 10 shu yerda.")));
}

#[test]
fn document_kind_by_extension() {
    assert_eq!(document_kind("pdf").ok(), Some(DocumentKind::Pdf));
    assert_eq!(document_kind("PDF").ok(), Some(DocumentKind::Pdf));
    assert_eq!(document_kind("Docx").ok(), Some(DocumentKind::Docx));
    assert_eq!(document_kind("txt").ok(), Some(DocumentKind::PlainText));
    assert_eq!(document_kind("MD").ok(), Some(DocumentKind::PlainText));
    assert_eq!(
        document_kind("RTF").err().unwrap(),
        "Unsupported file type '.rtf'. Supported: pdf, docx, txt, md"
    );
    assert_eq!(
        document_kind("").err().unwrap(),
        "Unsupported file type '.'. Supported: pdf, docx, txt, md"
    );
}

#[test]
fn missing_file_message() {
    assert_eq!(file_not_found("/tmp/a.pdf"), "File not found: /tmp/a.pdf");
}

#[test]
fn xml_entities_are_decoded_in_order() {
    assert_eq!(
        decode_xml_entities("a &lt;b&gt; &amp; &quot;c&quot; &apos;d&apos;"),
        "a <b> & \"c\" 'd'"
    );
    // `&amp;` is decoded after `&lt;`, so an escaped entity stays one level escaped.
    assert_eq!(decode_xml_entities("&amp;lt;"), "&lt;");
}

#[test]
fn docx_runs_are_joined_and_collapsed() {
    let xml = "<w:document><w:body><w:p><w:r><w:t>Ish  haqi</w:t></w:r><w:r><w:t xml:space=\"preserve\"> 8 000 000 &amp; bonus</w:t></w:r></w:p></w:body></w:document>";
    assert_eq!(docx_xml_text(xml).unwrap(), "Ish haqi 8 000 000 & bonus");
}

#[test]
fn docx_without_runs_strips_tags() {
    let xml = "<doc><p>Birinchi</p><p>ikkinchi &lt;band&gt;</p></doc>";
    assert_eq!(docx_xml_text(xml).unwrap(), "Birinchi ikkinchi <band>");
}

#[test]
fn collapse_whitespace_joins_words() {
    assert_eq!(collapse_ws("  a \n\t b   c "), "a b c");
    assert_eq!(collapse_ws("   "), "");
}

fn texts(v: Vec<Vec<char>>) -> Vec<String> {
    v.into_iter().map(|p| p.into_iter().collect()).collect()
}

#[test]
fn paragraphs_split_on_blank_lines_then_lines() {
    let blank: Vec<char> = "Birinchi band.\n \n\nIkkinchi band.".chars().collect();
    assert_eq!(texts(split_paragraphs(&blank)), vec!["Birinchi band.", "Ikkinchi band."]);
    let lines: Vec<char> = "1. Bir\n2. Ikki\n".chars().collect();
    assert_eq!(texts(split_paragraphs(&lines)), vec!["1. Bir", "2. Ikki"]);
    let one: Vec<char> = "Yagona qator".chars().collect();
    assert_eq!(texts(split_paragraphs(&one)), vec!["Yagona qator"]);
}

#[test]
fn sentences_need_a_plausible_start() {
    let p: Vec<char> = "Muddat 1 yil. Narx 5 so'm. masalan davom etadi... (a) band.".chars().collect();
    assert_eq!(
        texts(split_sentences(&p)),
        vec!["Muddat 1 yil.", "Narx 5 so'm. masalan davom etadi...", "(a) band."]
    );
}

fn words_of_units(units: Vec<Vec<char>>) -> Vec<String> {
    texts(units)
        .iter()
        .flat_map(|u| u.split_whitespace().map(|w| w.to_string()).collect::<Vec<_>>())
        .collect()
}

#[test]
fn units_keep_every_word_in_order() {
    let raw = "Birinchi band.  Ikkinchi\tband!\n3. Uchinchi   band?\n  \"Iqtibos\" tugadi. oxiri";
    let text: Vec<char> = raw.chars().collect();
    let units = split_into_units(&text);
    assert!(units.len() > 1);
    let expected: Vec<String> = raw.split_whitespace().map(|w| w.to_string()).collect();
    assert_eq!(words_of_units(units), expected);

    let paragraphs = "Birinchi  band.\n\n Ikkinchi band.  Uchinchi band.";
    let units = split_into_units(&paragraphs.chars().collect());
    let expected: Vec<String> = paragraphs.split_whitespace().map(|w| w.to_string()).collect();
    assert_eq!(words_of_units(units), expected);
}

fn zip_with(entries: &[(&str, &[u8])]) -> Vec<u8> {
    let mut w = zip::ZipWriter::new(std::io::Cursor::new(Vec::new()));
    for (name, body) in entries {
        w.start_file(*name, zip::write::SimpleFileOptions::default()).unwrap();
        std::io::Write::write_all(&mut w, body).unwrap();
    }
    w.finish().unwrap().into_inner()
}

#[test]
fn docx_bytes_give_the_body_text() {
    let xml = "<w:document><w:p><w:r><w:t>Shartnoma</w:t></w:r><w:r><w:t xml:space=\"preserve\">  &lt;1&gt;  band</w:t></w:r></w:p></w:document>";
    let bytes = zip_with(&[("word/document.xml", xml.as_bytes())]);
    assert_eq!(docx_text_from_bytes(&bytes), Ok("Shartnoma <1> band".to_string()));
}

#[test]
fn docx_without_body_is_invalid() {
    let bytes = zip_with(&[("word/styles.xml", b"<w:styles/>")]);
    let err = docx_text_from_bytes(&bytes).unwrap_err();
    assert!(err.starts_with("Invalid DOCX (missing word/document.xml): "), "{err}");
    assert!(err.len() > "Invalid DOCX (missing word/document.xml): ".len());
}

#[test]
fn non_zip_bytes_are_not_a_docx() {
    let err = docx_text_from_bytes(b"not a zip archive at all").unwrap_err();
    assert!(!err.is_empty());
    assert!(!err.starts_with("Invalid DOCX"));
}

#[test]
fn chunks_are_trimmed_and_adjacent_ones_differ() {
    let mut text = String::from("  \n");
    for i in 1..=30 {
        text.push_str(&format!("Modda {i}.   Ijarachi   to'lovni   o'z vaqtida amalga oshiradi.\n\n"));
    }
    text.push_str(&"z".repeat(300));
    text.push_str("  \t");
    let chunks = chunk_text(&text, 200, 60);
    assert!(chunks.len() > 2);
    for c in &chunks {
        assert_eq!(c.trim(), c.as_str());
        assert!(!c.is_empty() && c.chars().count() <= 200);
    }
    for w in chunks.windows(2) {
        assert_ne!(w[0], w[1]);
    }
}

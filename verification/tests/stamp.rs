use lopdf::{Dictionary, Document, Object, Stream};

use turbo_html2pdf::layout::color::Rgba;
use turbo_html2pdf::pdf::{numeral_of, ObjectId};
use turbo_html2pdf::stamp::{
    media_box_size, normalize_encrypt_length, overlay_page, page_sizes, rect_size,
    stamp_all_pages, stamp_pages, text_advance_pt, StampError, StampWatermark, A4_HEIGHT, A4_WIDTH,
    WATERMARK_XOBJECT_NAME,
};
use turbo_html2pdf::stamp_font::{
    font_closure, remapped_codes, shown_advance_pt, transplant_font_closure, walk_closure,
};

const PT: i64 = 1_000_000;

fn cancelled_watermark() -> StampWatermark {
    StampWatermark {
        text: "CANCELLED".to_string(),
        font_size: 64 * PT,
        color: Rgba::new(128, 128, 128, 255),
        opacity: 150_000,
        angle_deg: 45 * PT,
    }
}

/// A page tree of one page, its media boxes where they are given.
fn minimal_doc(
    page_media_box: Option<[f32; 4]>,
    parent_media_box: Option<[f32; 4]>,
) -> (Document, Vec<ObjectId>) {
    let mut doc = Document::with_version("1.5");
    let pages_id = doc.new_object_id();
    let content_id = doc.add_object(Stream::new(Dictionary::new(), b"BT ET".to_vec()));
    let mut page_dict = Dictionary::new();
    page_dict.set("Type", "Page");
    page_dict.set("Parent", pages_id);
    page_dict.set("Contents", content_id);
    if let Some(r) = page_media_box {
        page_dict.set("MediaBox", media_box_array(r));
    }
    let page_id = doc.add_object(page_dict);
    let mut pages_dict = Dictionary::new();
    pages_dict.set("Type", "Pages");
    pages_dict.set("Kids", vec![Object::Reference(page_id)]);
    pages_dict.set("Count", 1);
    if let Some(r) = parent_media_box {
        pages_dict.set("MediaBox", media_box_array(r));
    }
    doc.objects.insert(pages_id, Object::Dictionary(pages_dict));
    let mut catalog = Dictionary::new();
    catalog.set("Type", "Catalog");
    catalog.set("Pages", pages_id);
    let catalog_id = doc.add_object(catalog);
    doc.trailer.set("Root", catalog_id);
    let mut out = Vec::new();
    doc.save_to(&mut out).expect("minimal fixture saves");
    let doc = Document::load_mem(&out).expect("minimal fixture loads");
    let pages = doc.get_pages().into_values().collect();
    (doc, pages)
}

fn media_box_array(r: [f32; 4]) -> Object {
    Object::Array(r.into_iter().map(Object::Real).collect())
}

/// The overlay that a page's resources name.
fn overlay_form(doc: &Document, page: ObjectId) -> &Stream {
    let page = doc.get_dictionary(page).expect("page");
    let resources = page.get(b"Resources").unwrap().as_dict().expect("resources");
    let xobjects = resources.get(b"XObject").unwrap().as_dict().expect("external objects");
    let id = xobjects.get(WATERMARK_XOBJECT_NAME.as_bytes()).unwrap().as_reference().unwrap();
    doc.get_object(id).unwrap().as_stream().expect("form")
}

/// The sides of the overlay of the only page.
fn overlay_form_bbox(mut doc: Document, pages: Vec<ObjectId>) -> (f32, f32) {
    assert_eq!(pages.len(), 1, "fixture has one page");
    let done = stamp_all_pages(&mut doc, &cancelled_watermark(), vec![b"x".to_vec()]);
    assert!(done.expect("stamped"));
    let v = overlay_form(&doc, pages[0]).dict.get(b"BBox").unwrap().as_array().unwrap();
    (v[2].as_float().unwrap(), v[3].as_float().unwrap())
}

#[test]
fn inherited_media_box_from_the_pages_tree_is_used_when_the_page_has_none() {
    let (doc, pages) = minimal_doc(None, Some([0.0, 0.0, 400.0, 300.0]));
    assert_eq!(
        overlay_form_bbox(doc, pages),
        (400.0, 300.0),
        "the overlay must size itself to the inherited /MediaBox, not the A4 fallback"
    );
}

#[test]
fn missing_media_box_everywhere_falls_back_to_a4() {
    let (doc, pages) = minimal_doc(None, None);
    let (width, height) = overlay_form_bbox(doc, pages);
    assert!(
        (width - 595.2756).abs() < 0.01 && (height - 841.8898).abs() < 0.01,
        "the overlay must fall back to A4: got {width}x{height}"
    );
}

#[test]
fn a_page_has_its_own_media_box() {
    let (doc, _) = minimal_doc(Some([10.0, 20.0, 210.5, 120.0]), Some([0.0, 0.0, 1.0, 1.0]));
    assert_eq!(page_sizes(&doc).unwrap(), vec![(200_500_000, 100 * PT)]);
}

#[test]
fn a_page_that_is_not_there_counts_as_a4() {
    let (doc, _) = minimal_doc(None, None);
    assert_eq!(media_box_size(&doc, (99, 0)), (A4_WIDTH, A4_HEIGHT));
}

#[test]
fn no_pages_is_error() {
    let mut doc = Document::with_version("1.5");
    let pages_id = doc.add_object(Dictionary::from_iter([
        ("Type", Object::from("Pages")),
        ("Kids", Object::Array(vec![])),
        ("Count", Object::from(0)),
    ]));
    let catalog_id = doc.add_object(Dictionary::from_iter([
        ("Type", Object::from("Catalog")),
        ("Pages", Object::Reference(pages_id)),
    ]));
    doc.trailer.set("Root", catalog_id);
    let err = stamp_all_pages(&mut doc, &cancelled_watermark(), vec![]).unwrap_err();
    assert!(matches!(err, StampError::NoPages), "got {err:?}");
    assert!(err.message().contains("no pages"));
}

#[test]
fn a_document_without_pages_is_an_error() {
    let mut doc = Document::with_version("1.5");
    assert!(matches!(page_sizes(&doc), Err(StampError::NoPages)));
    let r = stamp_all_pages(&mut doc, &cancelled_watermark(), vec![]);
    assert!(matches!(r, Err(StampError::NoPages)));
}

#[test]
fn stamping_keeps_the_page_and_adds_a_line() {
    let (mut doc, pages) = minimal_doc(None, None);
    let before = doc.get_page_contents(pages[0]);
    let old = doc.get_object(before[0]).unwrap().as_stream().unwrap().content.clone();
    let done = stamp_all_pages(&mut doc, &cancelled_watermark(), vec![b"draw".to_vec()]);
    assert!(done.unwrap());
    assert_eq!(doc.get_pages().len(), 1);
    let after = doc.get_page_contents(pages[0]);
    assert_eq!(after.len(), before.len() + 1);
    assert_eq!(after[0], before[0]);
    assert_eq!(doc.get_object(after[0]).unwrap().as_stream().unwrap().content, old);
    let line = format!("\nq /{WATERMARK_XOBJECT_NAME} Do Q\n");
    assert_eq!(
        doc.get_object(after[1]).unwrap().as_stream().unwrap().content,
        line.as_bytes().to_vec()
    );
    let form = overlay_form(&doc, pages[0]);
    assert_eq!(form.content, b"draw");
    assert_eq!(form.dict.get(b"Length").unwrap().as_i64().unwrap(), 4);
    let resources = form.dict.get(b"Resources").unwrap().as_dict().unwrap();
    assert!(resources.has(b"Font"));
    let states = resources.get(b"ExtGState").unwrap().as_dict().unwrap();
    let (_, gs) = states.iter().next().unwrap();
    assert_eq!(gs.as_dict().unwrap().get(b"ca").unwrap().as_float().unwrap(), 0.15);
    let matrix = form.dict.get(b"Matrix").unwrap().as_array().unwrap();
    assert_eq!(matrix[0].as_float().unwrap(), 1.0);
}

#[test]
fn the_same_page_gets_the_same_overlay() {
    let stamped = || {
        let (mut doc, pages) = minimal_doc(None, None);
        overlay_page(&mut doc, pages[0], PT, b"x".to_vec());
        let mut out = Vec::new();
        doc.save_to(&mut out).unwrap();
        out
    };
    assert_eq!(stamped(), stamped());
}

#[test]
fn a_document_out_of_numbers_is_left_alone() {
    let (mut doc, pages) = minimal_doc(None, None);
    doc.max_id = u32::MAX - 1;
    let count = doc.objects.len();
    let r = stamp_all_pages(&mut doc, &cancelled_watermark(), vec![vec![]]);
    assert!(!r.unwrap());
    assert_eq!(doc.objects.len(), count);
}

#[test]
fn every_page_gains_one_line_each_time_it_is_listed() {
    let (mut doc, pages) = minimal_doc(None, None);
    let first = pages[0];
    let second = doc.add_object(doc.get_dictionary(first).unwrap().clone());
    let before = doc.get_page_contents(first);
    let listed = vec![first, second, first];
    let drawn = vec![b"a".to_vec(), b"b".to_vec(), b"c".to_vec()];
    stamp_pages(&mut doc, &listed, &cancelled_watermark(), drawn);
    let line = format!("\nq /{WATERMARK_XOBJECT_NAME} Do Q\n").into_bytes();
    for (page, lines) in [(first, 2), (second, 1)] {
        let after = doc.get_page_contents(page);
        assert_eq!(after.len(), before.len() + lines);
        assert_eq!(after[..before.len()], before[..]);
        for id in &after[before.len()..] {
            assert_eq!(doc.get_object(*id).unwrap().as_stream().unwrap().content, line);
        }
    }
    assert_eq!(overlay_form(&doc, second).content, b"b");
    assert_eq!(overlay_form(&doc, first).content, b"c");
}

#[test]
fn numbers_above_the_highest_given_out_do_not_stop_a_stamp() {
    let (mut doc, pages) = minimal_doc(None, None);
    doc.objects.insert((doc.max_id + 9, 0), Object::Null);
    let done = stamp_all_pages(&mut doc, &cancelled_watermark(), vec![b"draw".to_vec()]);
    assert!(done.unwrap());
    assert_eq!(overlay_form(&doc, pages[0]).content, b"draw");
    let taken = doc.max_id + 2;
    doc.objects.insert((taken, 0), Object::Null);
    let done = stamp_all_pages(&mut doc, &cancelled_watermark(), vec![b"again".to_vec()]);
    assert!(done.unwrap());
    assert!(doc.get_object((taken, 0)).unwrap().as_stream().is_ok());
}

/// A document of `n` pages in a tree of two levels, whose root claims `count`.
fn doc_of_pages(n: usize, count: i64) -> Document {
    let (mut doc, pages) = minimal_doc(None, None);
    let page = doc.get_dictionary(pages[0]).unwrap().clone();
    let parent = page.get(b"Parent").unwrap().as_reference().unwrap();
    let more: Vec<Object> =
        (1..n).map(|_| Object::Reference(doc.add_object(page.clone()))).collect();
    let inner = doc.add_object(Dictionary::from_iter([
        ("Type", Object::from("Pages")),
        ("Kids", Object::Array(more)),
        ("Count", Object::from(count)),
    ]));
    let tree = doc.get_object_mut(parent).unwrap().as_dict_mut().unwrap();
    tree.set("Kids", vec![Object::Reference(pages[0]), Object::Reference(inner)]);
    doc
}

#[test]
fn every_page_of_a_document_is_stamped() {
    let mut doc = doc_of_pages(3, 2);
    let before: Vec<ObjectId> = doc.get_pages().into_values().collect();
    assert_eq!((before.len(), page_sizes(&doc).unwrap().len()), (3, 3));
    let kept: Vec<Vec<ObjectId>> = before.iter().map(|p| doc.get_page_contents(*p)).collect();
    let drawn: Vec<Vec<u8>> = (0..3).map(|i| vec![b'0' + i]).collect();
    assert!(!stamp_all_pages(&mut doc, &cancelled_watermark(), vec![]).unwrap());
    assert!(stamp_all_pages(&mut doc, &cancelled_watermark(), drawn.clone()).unwrap());
    let after: Vec<ObjectId> = doc.get_pages().into_values().collect();
    assert_eq!(after, before);
    for (i, page) in after.iter().enumerate() {
        let now = doc.get_page_contents(*page);
        assert_eq!(now.len(), kept[i].len() + 1);
        assert_eq!(now[..kept[i].len()], kept[i][..]);
        assert_eq!(overlay_form(&doc, *page).content, drawn[i]);
    }
}

#[test]
fn a_false_count_of_pages_is_not_believed() {
    let doc = doc_of_pages(2, i64::MAX);
    assert_eq!(page_sizes(&doc).unwrap().len(), 2);
}

#[test]
fn only_the_first_long_length_is_rewritten() {
    let pdf = b"<< /Length 256 /V 5 >> /Length 256";
    let out = normalize_encrypt_length(pdf);
    assert_eq!(out, b"<< /Length 128 /V 5 >> /Length 256");
    assert_eq!(normalize_encrypt_length(b"/Length 25"), b"/Length 25");
    assert_eq!(normalize_encrypt_length(b""), b"");
}

#[test]
fn errors_say_what_failed() {
    assert_eq!(StampError::NoPages.message(), "no pages to stamp: input contains no pages");
    assert_eq!(StampError::Malformed("x".to_string()).message(), "malformed PDF input: x");
    assert_eq!(StampError::Decrypt("y".to_string()).message(), "failed to decrypt input PDF: y");
    assert_eq!(StampError::Encrypt("z".to_string()).message(), "failed to encrypt output PDF: z");
}

#[test]
fn text_is_centered_by_its_average_width() {
    assert_eq!(text_advance_pt("DRAFT", 72 * PT), 198 * PT);
}

#[test]
fn numerals_have_six_decimals() {
    assert_eq!(numeral_of(0), "0.000000");
    assert_eq!(numeral_of(1_250_000), "1.250000");
    assert_eq!(numeral_of(-12), "-0.000012");
    assert_eq!(numeral_of(595_275_600), "595.275600");
}

#[test]
fn a_rectangle_of_anything_but_numbers_has_no_size() {
    assert!(rect_size(&turbo_html2pdf::pdf::Obj::Null).is_none());
    assert!(rect_size(&turbo_html2pdf::pdf::Obj::Array(vec![])).is_none());
}

#[test]
fn walk_closure_stops_at_an_already_seen_id() {
    let mini = Document::with_version("1.7");
    let id: ObjectId = (1, 0);
    let mut seen = vec![id];
    walk_closure(&mini, id, &mut seen);
    assert_eq!(seen, vec![id], "an already-seen id must not be revisited or grown");
}

#[test]
fn walk_closure_skips_a_dangling_reference() {
    let mini = Document::with_version("1.7");
    let dangling: ObjectId = (99, 0);
    let mut seen = Vec::new();
    walk_closure(&mini, dangling, &mut seen);
    assert_eq!(
        seen,
        vec![dangling],
        "a dangling id is recorded as visited but contributes no further ids"
    );
}

/// A font of three objects that refer to each other, and one apart.
fn font() -> Document {
    let mut doc = Document::with_version("1.7");
    let mut type0 = Dictionary::new();
    type0.set("DescendantFonts", vec![Object::Reference((2, 0))]);
    type0.set("Name", "F");
    doc.add_object(type0);
    let mut dict = Dictionary::new();
    dict.set("Back", Object::Reference((1, 0)));
    dict.set("P", Object::Reference((3, 0)));
    dict.set("Scale", Object::Real(0.001));
    let mut stream = Stream::new(dict, b"data".to_vec());
    stream.allows_compression = false;
    doc.add_object(stream);
    doc.add_object(Object::Integer(7));
    doc.add_object(Object::Integer(8));
    doc
}

#[test]
fn a_closure_holds_what_its_root_leads_to() {
    assert_eq!(font_closure(&font(), (1, 0)), vec![(1, 0), (2, 0), (3, 0)]);
}

#[test]
fn a_font_is_transplanted_under_fresh_numbers() {
    let mut doc = Document::with_version("1.7");
    doc.add_object(Object::Integer(1));
    let id = transplant_font_closure(&mut doc, &font(), (1, 0)).expect("transplanted");
    assert_eq!(id, (2, 0));
    assert_eq!((doc.max_id, doc.objects.len()), (4, 4));
    assert_eq!(doc.get_object((1, 0)).unwrap().as_i64().unwrap(), 1);
    let stream = doc.get_object((3, 0)).unwrap().as_stream().unwrap();
    assert_eq!((stream.content.as_slice(), stream.allows_compression), (&b"data"[..], false));
    assert_eq!(stream.dict.get(b"Back").unwrap().as_reference().unwrap(), (2, 0));
    assert_eq!(stream.dict.get(b"P").unwrap().as_reference().unwrap(), (4, 0));
    assert_eq!(stream.dict.get(b"Scale").unwrap().as_float().unwrap(), 0.001);
}

#[test]
fn a_dangling_font_is_not_transplanted() {
    let mut mini = Document::with_version("1.7");
    mini.add_object(Object::Array(vec![Object::Reference((9, 0))]));
    let mut doc = Document::with_version("1.7");
    assert!(transplant_font_closure(&mut doc, &mini, (1, 0)).is_none());
    assert!(doc.objects.is_empty());
}

#[test]
fn codes_are_two_bytes_high_first() {
    assert_eq!(remapped_codes(&vec![1, 0x1234]), vec![0, 1, 0x12, 0x34]);
}

#[test]
fn shown_width_scales_with_the_size() {
    assert_eq!(shown_advance_pt(&vec![500, 1500], 1000, 16 * PT), 24 * PT);
}

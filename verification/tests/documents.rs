//! Loading documents of every format from their bytes.
use std::io::{Cursor, Write};

use peep::document::archive::{normalise_archive_name, normalise_relative_archive_path};
use peep::natural::{natural_cmp, sort_names};
use peep::document::chapter::detect_chapter_headings;
use peep::document::epub::toc_has_collapsed_offsets;
use peep::document::markdown::{render_events, render_markdown, RenderedMarkdown};
use peep::document::toc::{label_is_landmark, label_is_visible_at, labels_compatible};
use peep::document::txt::{decode, looks_binary};
use peep::document::{
    load_document, DocumentFormat, DocumentSource, LoadError, LoadOptions, LoadedDocument,
    TextStyleKind, TocEntry,
};
use peep::search::{find_next, SearchDirection, SearchKind, SearchQuery};
use peep::strings::normalise_newlines;
use peep::viewport::Viewport;
use zip::write::SimpleFileOptions;
use zip::ZipWriter;

fn source_of(name: &str) -> DocumentSource {
    let (stem, extension) = match name.rsplit_once('.') {
        Some((stem, extension)) => (stem, Some(extension.to_owned())),
        None => (name, None),
    };
    DocumentSource::from_path(name.to_owned(), extension, Some(stem.to_owned()))
}

fn open(name: &str, bytes: &[u8]) -> Result<LoadedDocument, LoadError> {
    load_document(&source_of(name), format!("/books/{name}"), bytes, LoadOptions::default())
}

fn make_epub(entries: &[(&str, &str)]) -> Vec<u8> {
    let mut writer = ZipWriter::new(Cursor::new(Vec::new()));
    let options = SimpleFileOptions::default();
    for (name, contents) in entries {
        writer.start_file(*name, options).unwrap();
        writer.write_all(contents.as_bytes()).unwrap();
    }
    writer.finish().unwrap().into_inner()
}

fn open_test_epub(entries: &[(&str, String)]) -> LoadedDocument {
    let entries: Vec<(&str, &str)> =
        entries.iter().map(|(name, contents)| (*name, contents.as_str())).collect();
    let loaded = open("book", &make_epub(&entries)).unwrap();
    assert_canonical_toc(&loaded);
    loaded
}

fn container_xml() -> String {
    r#"<?xml version="1.0"?>
       <container><rootfiles><rootfile full-path="OPS/book.opf"/></rootfiles></container>"#
        .to_owned()
}

fn package_xml(manifest: &str, spine: &str) -> String {
    format!(
        r#"<?xml version="1.0"?>
           <package>
             <metadata><title>Recovery fixture</title></metadata>
             <manifest>{manifest}</manifest>
             <spine>{spine}</spine>
           </package>"#
    )
}

fn chapter_xhtml(id: &str, label: &str) -> String {
    format!(
        r#"<html xmlns="http://www.w3.org/1999/xhtml"><body><h1 id="{id}">{label}</h1><p>正文。</p></body></html>"#
    )
}

// -----------------------------------------------------------------------------------------
// Damaged and unusual books
// -----------------------------------------------------------------------------------------

#[test]
fn xhtml_self_closing_script_does_not_hide_the_book_body() {
    let loaded = open_test_epub(&[
        ("META-INF/container.xml", container_xml()),
        (
            "OPS/book.opf",
            package_xml(
                r#"<item id="chapter" href="chapter.xhtml" media-type="application/xhtml+xml"/>"#,
                r#"<itemref idref="chapter"/>"#,
            ),
        ),
        (
            "OPS/chapter.xhtml",
            r#"<?xml version="1.0" encoding="utf-8"?>
               <html xmlns="http://www.w3.org/1999/xhtml">
                 <head><script src="reader.js"/></head>
                 <body><h1>第一章 雨夜</h1><p>故事从这里开始。</p></body>
               </html>"#
                .to_owned(),
        ),
    ]);

    assert!(loaded.document().text().contains("故事从这里开始。"));
    assert_jump_shows(&loaded, "第一章 雨夜", "第一章 雨夜");
}

#[test]
fn dtd_bearing_ncx_keeps_its_navigation_depth_and_targets() {
    let loaded = open_test_epub(&[
        ("META-INF/container.xml", container_xml()),
        (
            "OPS/book.opf",
            r#"<?xml version="1.0"?>
               <package>
                 <metadata><title>DTD fixture</title></metadata>
                 <manifest>
                   <item id="ncx" href="toc.ncx" media-type="application/x-dtbncx+xml"/>
                   <item id="one" href="chapter.xhtml" media-type="application/xhtml+xml"/>
                 </manifest>
                 <spine toc="ncx"><itemref idref="one"/></spine>
               </package>"#
                .to_owned(),
        ),
        (
            "OPS/toc.ncx",
            r#"<?xml version="1.0"?>
               <!DOCTYPE ncx PUBLIC "-//NISO//DTD ncx 2005-1//EN" "http://www.daisy.org/z3986/2005/ncx-2005-1.dtd">
               <ncx><navMap>
                 <navPoint><navLabel><text>第一章 风起</text></navLabel><content src="chapter.xhtml#one"/></navPoint>
                 <navPoint><navLabel><text>第二章 云涌</text></navLabel><content src="chapter.xhtml#two"/></navPoint>
               </navMap></ncx>"#
                .to_owned(),
        ),
        (
            "OPS/chapter.xhtml",
            r#"<html xmlns="http://www.w3.org/1999/xhtml"><body>
                 <h2 id="one">第一章 风起</h2><p>一。</p>
                 <h2 id="two">第二章 云涌</h2><p>二。</p>
               </body></html>"#
                .to_owned(),
        ),
    ]);

    assert_eq!(
        loaded
            .document()
            .toc()
            .iter()
            .map(|entry| (entry.label(), entry.depth()))
            .collect::<Vec<_>>(),
        vec![("第一章 风起", 0), ("第二章 云涌", 0)]
    );
    assert_jump_shows(&loaded, "第二章 云涌", "第二章 云涌");
}

#[test]
fn misleading_fragment_is_repaired_by_the_heading_in_its_declared_file() {
    let loaded = open_test_epub(&[
        ("META-INF/container.xml", container_xml()),
        (
            "OPS/book.opf",
            r#"<package><metadata><title>Fragment fixture</title></metadata><manifest>
                 <item id="ncx" href="toc.ncx" media-type="application/x-dtbncx+xml"/>
                 <item id="front" href="front.xhtml" media-type="application/xhtml+xml"/>
                 <item id="chapters" href="chapters.xhtml" media-type="application/xhtml+xml"/>
               </manifest><spine toc="ncx"><itemref idref="front"/><itemref idref="chapters"/></spine></package>"#
                .to_owned(),
        ),
        (
            "OPS/toc.ncx",
            r#"<ncx><navMap>
                 <navPoint><navLabel><text>目录</text></navLabel><content src="front.xhtml#directory"/></navPoint>
                 <navPoint><navLabel><text>第一章 春</text></navLabel><content src="chapters.xhtml#two"/></navPoint>
                 <navPoint><navLabel><text>第二章 夏</text></navLabel><content src="chapters.xhtml#two"/></navPoint>
               </navMap></ncx>"#
                .to_owned(),
        ),
        (
            "OPS/front.xhtml",
            r#"<html xmlns="http://www.w3.org/1999/xhtml"><body><h1 id="directory">目录</h1><p>章节集合。</p></body></html>"#
                .to_owned(),
        ),
        (
            "OPS/chapters.xhtml",
            r#"<html xmlns="http://www.w3.org/1999/xhtml"><body>
                 <h1 id="one">第一章 春</h1><p>春。</p>
                 <h1 id="two">第二章 夏</h1><p>夏。</p>
               </body></html>"#
                .to_owned(),
        ),
    ]);

    assert_jump_shows(&loaded, "目录", "目录");
    assert_jump_shows(&loaded, "第一章 春", "第一章 春");
    assert_jump_shows(&loaded, "第二章 夏", "第二章 夏");
    assert!(loaded.document().toc().windows(2).all(|pair| pair[0].offset() <= pair[1].offset()));
}

#[test]
fn front_and_tail_chapter_collections_do_not_steal_toc_targets() {
    let loaded = open_test_epub(&[
        ("META-INF/container.xml", container_xml()),
        (
            "OPS/book.opf",
            r#"<package><metadata><title>Repeated collection fixture</title></metadata><manifest>
                 <item id="ncx" href="toc.ncx" media-type="application/x-dtbncx+xml"/>
                 <item id="book" href="book.xhtml" media-type="application/xhtml+xml"/>
               </manifest><spine toc="ncx"><itemref idref="book"/></spine></package>"#
                .to_owned(),
        ),
        (
            "OPS/toc.ncx",
            r#"<ncx><navMap>
                 <navPoint><navLabel><text>第一章 花</text></navLabel><content src="book.xhtml#missing-one"/></navPoint>
                 <navPoint><navLabel><text>第二章 月</text></navLabel><content src="book.xhtml#missing-two"/></navPoint>
               </navMap></ncx>"#
                .to_owned(),
        ),
        (
            "OPS/book.xhtml",
            r#"<html xmlns="http://www.w3.org/1999/xhtml"><body>
                 <div class="front-contents"><p>第一章 花</p><p>第二章 月</p></div>
                 <h1 id="one">第一章 花</h1><p>第一章正文。</p>
                 <h1 id="two">第二章 月</h1><p>第二章正文。</p>
                 <div class="tail-contents"><p>第一章 花</p><p>第二章 月</p></div>
               </body></html>"#
                .to_owned(),
        ),
    ]);

    assert_jump_shows(&loaded, "第一章 花", "第一章正文。");
    assert_jump_shows(&loaded, "第二章 月", "第二章正文。");
    assert!(loaded.document().toc()[0].offset() < loaded.document().toc()[1].offset());
}

#[test]
fn txt_chapters_use_strict_line_start_grammar_and_preserve_volume_hierarchy() {
    let text = [
        "第二回合开始后，众人都沉默了。\n",
        "第二部长篇小说并不是卷名。\n",
        "他说到第二回往事时停了下来。\n",
        "第一卷　最后一战　第一章　心事一灯知\n",
        "正文。\n",
        "第一卷　最后一战　第二章　痛作无家别\n",
        "正文。\n",
        "第1357章　昨日\n",
        "正文。\n",
        "第1357章　明日\n",
        "正文。\n",
    ]
    .concat();
    let loaded = open("book.txt", text.as_bytes()).unwrap();
    assert_canonical_toc(&loaded);

    let toc = loaded.document().toc();
    assert_eq!(
        toc.iter().map(|entry| (entry.label(), entry.depth())).collect::<Vec<_>>(),
        vec![
            ("第一卷　最后一战", 0),
            ("第一章　心事一灯知", 1),
            ("第二章　痛作无家别", 1),
            ("第1357章　昨日", 1),
            ("第1357章　明日", 1),
        ]
    );
    assert_eq!(toc[0].offset(), toc[1].offset());
    assert_jump_shows(&loaded, "第二章　痛作无家别", "第二章　痛作无家别");
}

#[test]
fn wrong_ncx_paths_are_repaired_by_globally_unique_semantic_headings() {
    let loaded = open_test_epub(&[
        ("META-INF/container.xml", container_xml()),
        (
            "OPS/book.opf",
            r#"<package><metadata><title>Wrong path fixture</title></metadata><manifest>
                 <item id="ncx" href="toc.ncx" media-type="application/x-dtbncx+xml"/>
                 <item id="one" href="one.xhtml" media-type="application/xhtml+xml"/>
                 <item id="two" href="two.xhtml" media-type="application/xhtml+xml"/>
                 <item id="three" href="three.xhtml" media-type="application/xhtml+xml"/>
               </manifest><spine toc="ncx">
                 <itemref idref="one"/><itemref idref="two"/><itemref idref="three"/>
               </spine></package>"#
                .to_owned(),
        ),
        (
            "OPS/toc.ncx",
            r#"<ncx><navMap>
                 <navPoint><navLabel><text>第一章 松</text></navLabel><content src="one.xhtml#missing"/></navPoint>
                 <navPoint><navLabel><text>第二章 竹</text></navLabel><content src="one.xhtml#missing"/></navPoint>
                 <navPoint><navLabel><text>第三章 梅</text></navLabel><content src="one.xhtml#missing"/></navPoint>
               </navMap></ncx>"#
                .to_owned(),
        ),
        ("OPS/one.xhtml", chapter_xhtml("one", "第一章 松")),
        ("OPS/two.xhtml", chapter_xhtml("two", "第二章 竹")),
        ("OPS/three.xhtml", chapter_xhtml("three", "第三章 梅")),
    ]);

    for label in ["第一章 松", "第二章 竹", "第三章 梅"] {
        assert_jump_shows(&loaded, label, label);
    }
    assert!(loaded.document().toc().windows(2).all(|pair| pair[0].offset() < pair[1].offset()));
}

#[test]
fn nested_epub_nav_is_preferred_and_tail_navigation_is_not_rendered_as_prose() {
    let loaded = open_test_epub(&[
        ("META-INF/container.xml", container_xml()),
        (
            "OPS/book.opf",
            r#"<package><metadata><title>Nav fixture</title></metadata><manifest>
                 <item id="book" href="book.xhtml" media-type="application/xhtml+xml" properties="nav"/>
                 <item id="ncx" href="toc.ncx" media-type="application/x-dtbncx+xml"/>
               </manifest><spine toc="ncx"><itemref idref="book"/></spine></package>"#
                .to_owned(),
        ),
        (
            "OPS/toc.ncx",
            r#"<ncx><navMap><navPoint><navLabel><text>开始</text></navLabel><content src="book.xhtml"/></navPoint></navMap></ncx>"#
                .to_owned(),
        ),
        (
            "OPS/book.xhtml",
            r##"<html xmlns="http://www.w3.org/1999/xhtml" xmlns:epub="http://www.idpf.org/2007/ops"><body>
                 <h1 id="part">第一卷 山河</h1>
                 <h2 id="chapter">第一章 入城</h2><p>正文。</p>
                 <nav epub:type="toc"><p>尾部目录独有文本</p><ol>
                   <li><a href="#part">第一卷 山河</a><ol>
                     <li><a href="#chapter">第一章 入城</a></li>
                   </ol></li>
                 </ol></nav>
               </body></html>"##
                .to_owned(),
        ),
    ]);

    assert!(!loaded.document().text().contains("尾部目录独有文本"));
    assert_eq!(
        loaded
            .document()
            .toc()
            .iter()
            .map(|entry| (entry.label(), entry.depth()))
            .collect::<Vec<_>>(),
        vec![("第一卷 山河", 0), ("第一章 入城", 1)]
    );
    assert_jump_shows(&loaded, "第一章 入城", "第一章 入城");
}

#[test]
fn non_chapter_landmarks_use_their_declared_section_or_anchor() {
    let loaded = open_test_epub(&[
        ("META-INF/container.xml", container_xml()),
        (
            "OPS/book.opf",
            r#"<package><metadata><title>Landmark fixture</title></metadata><manifest>
                 <item id="ncx" href="toc.ncx" media-type="application/x-dtbncx+xml"/>
                 <item id="directory" href="directory.xhtml" media-type="application/xhtml+xml"/>
                 <item id="rights" href="rights.xhtml" media-type="application/xhtml+xml"/>
                 <item id="chapter" href="chapter.xhtml" media-type="application/xhtml+xml"/>
               </manifest><spine toc="ncx">
                 <itemref idref="directory"/><itemref idref="rights"/><itemref idref="chapter"/>
               </spine></package>"#
                .to_owned(),
        ),
        (
            "OPS/toc.ncx",
            r#"<ncx><navMap>
                 <navPoint><navLabel><text>目录</text></navLabel><content src="directory.xhtml"/></navPoint>
                 <navPoint><navLabel><text>版权页</text></navLabel><content src="rights.xhtml#rights"/></navPoint>
                 <navPoint><navLabel><text>第一章 正文</text></navLabel><content src="chapter.xhtml#chapter"/></navPoint>
               </navMap></ncx>"#
                .to_owned(),
        ),
        (
            "OPS/directory.xhtml",
            r#"<html xmlns="http://www.w3.org/1999/xhtml"><body><h1>示例书名</h1><p>第一章 正文</p></body></html>"#
                .to_owned(),
        ),
        (
            "OPS/rights.xhtml",
            r#"<html xmlns="http://www.w3.org/1999/xhtml"><body><div id="rights"><h1>示例书名</h1><p>作者与出版信息。</p></div></body></html>"#
                .to_owned(),
        ),
        ("OPS/chapter.xhtml", chapter_xhtml("chapter", "第一章 正文")),
    ]);

    assert_eq!(
        loaded.document().toc().iter().map(|entry| entry.label()).collect::<Vec<_>>(),
        vec!["目录", "版权页", "第一章 正文"]
    );
    assert_jump_shows(&loaded, "目录", "示例书名");
    assert_jump_shows(&loaded, "版权页", "示例书名");
}

#[test]
fn epub3_nav_with_self_closing_script_is_parsed_as_xhtml() {
    let loaded = open_test_epub(&[
        ("META-INF/container.xml", container_xml()),
        (
            "OPS/book.opf",
            r#"<package><metadata><title>XHTML nav fixture</title></metadata><manifest>
                 <item id="nav" href="nav.xhtml" media-type="application/xhtml+xml" properties="nav"/>
                 <item id="book" href="book.xhtml" media-type="application/xhtml+xml"/>
               </manifest><spine><itemref idref="book"/></spine></package>"#
                .to_owned(),
        ),
        (
            "OPS/nav.xhtml",
            r##"<?xml version="1.0"?><html xmlns="http://www.w3.org/1999/xhtml" xmlns:epub="http://www.idpf.org/2007/ops">
                 <head><script src="reader.js"/></head><body><nav epub:type="toc"><ol>
                   <li><a href="book.xhtml#part">第一部 起点</a><ol>
                     <li><a href="book.xhtml#chapter">第一章 出发</a></li>
                   </ol></li>
                 </ol></nav></body>
               </html>"##
                .to_owned(),
        ),
        (
            "OPS/book.xhtml",
            r#"<html xmlns="http://www.w3.org/1999/xhtml"><body>
                 <h1 id="part">第一部 起点</h1><h2 id="chapter">第一章 出发</h2><p>正文。</p>
               </body></html>"#
                .to_owned(),
        ),
    ]);

    assert_eq!(
        loaded
            .document()
            .toc()
            .iter()
            .map(|entry| (entry.label(), entry.depth()))
            .collect::<Vec<_>>(),
        vec![("第一部 起点", 0), ("第一章 出发", 1)]
    );
}

fn assert_jump_shows(loaded: &LoadedDocument, label: &str, expected: &str) {
    let entry = loaded.document().toc().iter().find(|entry| entry.label() == label).unwrap();
    let text = loaded.document().text();
    let mut viewport = Viewport::new(text, 0);
    viewport.set_width(80);
    viewport.goto_byte(text, entry.offset());
    let visible = viewport
        .visible_lines(text, 3)
        .into_iter()
        .map(|line| &text[line.range()])
        .collect::<Vec<_>>()
        .join("\n");
    assert!(visible.contains(expected), "jump for {label:?} showed {visible:?}");
}

fn assert_canonical_toc(loaded: &LoadedDocument) {
    let text = loaded.document().text();
    let toc = loaded.document().toc();
    assert!(toc.windows(2).all(|pair| pair[0].offset() <= pair[1].offset()));
    for entry in toc {
        assert!(entry.offset() < text.len());
        assert!(text.is_char_boundary(entry.offset()));
        let mut viewport = Viewport::new(text, 0);
        viewport.set_width(80);
        viewport.goto_byte(text, entry.offset());
        assert!(viewport.anchor() <= entry.offset());
    }
    for pair in toc.windows(2).filter(|pair| pair[0].offset() == pair[1].offset()) {
        assert!(
            pair[0].depth() != pair[1].depth() || pair[0].label() == pair[1].label(),
            "unrelated TOC entries share offset {}: {:?} and {:?}",
            pair[0].offset(),
            pair[0].label(),
            pair[1].label()
        );
    }
}


// -----------------------------------------------------------------------------------------
// EPUB
// -----------------------------------------------------------------------------------------

#[test]
fn renders_html_blocks_images_and_styles() {
    let rendered = peep::document::xhtml::render(
        "<html><body><h1>第一章</h1><p>Hello <em>world</em>.</p><p><img/></p></body></html>",
    );
    assert_eq!(rendered.text, "第一章\n\nHello world.\n\n[Image]");
    assert!(rendered.styles.iter().any(|style| style.kind == TextStyleKind::Emphasis));
    assert_eq!(rendered.headings[0].label, "第一章");
}

#[test]
fn opens_standard_epub_in_spine_order() {
    let bytes = make_epub(&[
        (
            "META-INF/container.xml",
            r#"<?xml version="1.0"?><container><rootfiles><rootfile full-path="OPS/book.opf"/></rootfiles></container>"#,
        ),
        (
            "OPS/book.opf",
            r#"<?xml version="1.0"?><package><metadata><title>Demo</title></metadata><manifest><item id="two" href="2.xhtml" media-type="application/xhtml+xml"/><item id="ten" href="10.xhtml" media-type="application/xhtml+xml"/></manifest><spine><itemref idref="ten"/><itemref idref="two"/></spine></package>"#,
        ),
        ("OPS/2.xhtml", "<html><body><h1>Two</h1><p>second</p></body></html>"),
        ("OPS/10.xhtml", "<html><body><h1>Ten</h1><p>first</p></body></html>"),
    ]);
    let loaded = open("book", &bytes).unwrap();

    assert_eq!(loaded.format(), DocumentFormat::Epub);
    assert_eq!(loaded.document().metadata().title(), Some("Demo"));
    assert!(
        loaded.document().text().find("Ten").unwrap()
            < loaded.document().text().find("Two").unwrap()
    );
    assert_eq!(loaded.document().sections().len(), 2);
    assert_eq!(loaded.document().toc()[0].label(), "Ten");
}

#[test]
fn recovers_epub_without_package() {
    let bytes = make_epub(&[
        ("text/10.xhtml", "<html><body><h1>Ten</h1></body></html>"),
        ("text/2.xhtml", "<html><body><h1>Two</h1></body></html>"),
    ]);
    let loaded = open("book", &bytes).unwrap();

    assert!(
        loaded.document().text().find("Two").unwrap()
            < loaded.document().text().find("Ten").unwrap()
    );
    assert!(loaded.warnings().iter().any(|warning| warning.code() == "epub.package_missing"));
}

#[test]
fn recovers_when_container_points_to_a_missing_package() {
    let bytes = make_epub(&[
        (
            "META-INF/container.xml",
            r#"<container><rootfiles><rootfile full-path="missing.opf"/></rootfiles></container>"#,
        ),
        (
            "OPS/book.opf",
            r#"<package><manifest><item id="one" href="1.xhtml" media-type="application/xhtml+xml"/></manifest><spine><itemref idref="one"/></spine></package>"#,
        ),
        ("OPS/1.xhtml", "<html><body><h1>Recovered</h1></body></html>"),
    ]);
    let loaded = open("book", &bytes).unwrap();

    assert!(loaded.document().text().contains("Recovered"));
    assert!(
        loaded.warnings().iter().any(|warning| warning.code() == "epub.package_path_recovered")
    );
}

#[test]
fn rejects_fixed_layout_epub() {
    let bytes = make_epub(&[
        (
            "META-INF/container.xml",
            r#"<container><rootfiles><rootfile full-path="book.opf"/></rootfiles></container>"#,
        ),
        (
            "book.opf",
            r#"<package><metadata><meta property="rendition:layout">pre-paginated</meta></metadata><manifest><item id="one" href="1.xhtml" media-type="application/xhtml+xml"/></manifest><spine><itemref idref="one"/></spine></package>"#,
        ),
        ("1.xhtml", "<html><body>fixed</body></html>"),
    ]);
    let error = open("book", &bytes).unwrap_err();

    assert!(error.message().contains("fixed-layout"));
}

#[test]
fn natural_sort_orders_numeric_segments() {
    assert_eq!(natural_cmp("chapter2.xhtml", "chapter10.xhtml"), std::cmp::Ordering::Less);
}

#[test]
fn natural_sort_compares_numbers_by_value_whatever_their_length() {
    assert_eq!(natural_cmp("a007", "a7"), std::cmp::Ordering::Greater);
    assert_eq!(natural_cmp("a08b", "a8c"), std::cmp::Ordering::Greater);
    assert_eq!(natural_cmp("a9", "a10"), std::cmp::Ordering::Less);
    assert_eq!(natural_cmp("a1", "a1"), std::cmp::Ordering::Equal);
    assert_eq!(natural_cmp("b1", "a2"), std::cmp::Ordering::Greater);
}

#[test]
fn names_that_compare_equal_stay_in_their_order_when_sorted() {
    let names = ["b10", "B9", "a01", "b9", "a1", "A"].map(str::to_owned);
    assert_eq!(sort_names(&names), ["A", "a1", "a01", "B9", "b9", "b10"]);
}

fn entry(label: &str, offset: usize) -> TocEntry {
    TocEntry { label: label.to_owned(), offset, depth: 0 }
}

#[test]
fn collapsed_toc_detects_stripped_fragments() {
    let entries = vec![entry("a", 100), entry("b", 100)];
    assert!(toc_has_collapsed_offsets(&entries));
}

#[test]
fn collapsed_toc_passes_valid_toc() {
    let entries = vec![entry("a", 100), entry("b", 200)];
    assert!(!toc_has_collapsed_offsets(&entries));
}

#[test]
fn collapsed_toc_returns_false_for_single_entry() {
    let entries = vec![entry("a", 100)];
    assert!(!toc_has_collapsed_offsets(&entries));
}

#[test]
fn archive_names_are_decoded_and_stay_in_the_archive() {
    assert_eq!(normalise_archive_name("a\\b"), "a/b");
    assert_eq!(
        normalise_relative_archive_path("OPS/", "text%20one.xhtml#here").as_deref(),
        Some("OPS/text one.xhtml")
    );
    assert_eq!(normalise_relative_archive_path("OPS/", "../../up.xhtml"), None);
}

#[test]
fn what_is_no_archive_is_no_epub() {
    let error = open("book.epub", b"PK\x03\x04 and nothing else").unwrap_err();
    assert!(matches!(error, LoadError::InvalidEpub(_)));
}

// -----------------------------------------------------------------------------------------
// Markdown
// -----------------------------------------------------------------------------------------

fn render(source: &str) -> RenderedMarkdown {
    render_markdown(source, "fallback")
}

#[test]
fn headings_create_toc_and_inline_styles() {
    let rendered = render("# 文档标题\n\n这是 **粗体**、*斜体* 和 `code`。\n");
    assert_eq!(rendered.metadata.title(), Some("文档标题"));
    assert_eq!(rendered.toc.len(), 1);
    assert_eq!(rendered.toc[0].label(), "文档标题");
    assert!(rendered.styles.iter().any(|style| style.kind() == TextStyleKind::Strong));
    assert!(rendered.styles.iter().any(|style| style.kind() == TextStyleKind::Emphasis));
    assert!(rendered.styles.iter().any(|style| style.kind() == TextStyleKind::Code));
}

#[test]
fn front_matter_is_hidden_and_supplies_metadata() {
    let rendered = render("---\ntitle: '设计说明'\nauthor: 测试者\n---\n\n正文\n");
    assert_eq!(rendered.metadata.title(), Some("设计说明"));
    assert_eq!(rendered.metadata.author(), Some("测试者"));
    assert!(!rendered.text.contains("author:"));
    assert_eq!(rendered.text, "正文");
}

#[test]
fn renders_links_images_lists_and_quotes_as_readable_text() {
    let rendered = render(
        "> 引用\n\n- [x] 完成\n- [ ] 阅读 [文档](https://example.com)\n\n![架构图](assets/a.png)\n",
    );
    assert!(rendered.text.contains("│ 引用"));
    assert!(rendered.text.contains("- [x] 完成"), "{}", rendered.text);
    assert!(rendered.text.contains("文档 <https://example.com>"));
    assert!(rendered.text.contains("[Image: 架构图] <assets/a.png>"));
}

#[test]
fn preserves_ordered_and_nested_list_structure() {
    let rendered = render("3. 父项\n   - 子项\n4. 下一项\n");
    assert!(rendered.text.contains("3. 父项\n  - 子项"), "{}", rendered.text);
    assert!(rendered.text.contains("4. 下一项"), "{}", rendered.text);
}

#[test]
fn renders_cjk_table_with_borders_and_bounded_width() {
    let long = "中文说明".repeat(40);
    let source = format!("| 名称 | 说明 |\n| :--- | ---: |\n| Peep | {long} |\n");
    let rendered = render(&source);
    assert!(rendered.text.contains('┌'));
    assert!(rendered.text.contains("│ 名称"));
    assert!(rendered.text.lines().all(|line| unicode_width::UnicodeWidthStr::width(line) <= 100));
    assert!(rendered.text.lines().count() > 5);
}

#[test]
fn strips_terminal_control_characters() {
    let rendered = render("普通\u{1b}[31m文字\u{7}\n");
    assert!(!rendered.text.contains('\u{1b}'));
    assert!(!rendered.text.contains('\u{7}'));
}

#[test]
fn preserves_hard_breaks_and_code_block_style_at_document_end() {
    let rendered = render("第一行  \n第二行\n\n```text\ncode\n```\n");
    assert!(rendered.text.contains("第一行\n第二行"));
    let code = rendered.text.find("code").unwrap();
    assert!(
        rendered.styles.iter().any(|style| {
            style.kind() == TextStyleKind::Code && style.range().contains(&code)
        })
    );
}

#[test]
fn extracts_visible_html_without_scripts() {
    let rendered =
        render("<div><p>第一段</p><script>danger()</script><p>第二段<br>下一行</p></div>\n");
    assert!(rendered.text.contains("第一段"));
    assert!(rendered.text.contains("第二段"));
    assert!(rendered.text.contains("下一行"));
    assert!(!rendered.text.contains("danger"));
    assert!(!rendered.text.contains("<div>"));
}

#[test]
fn tables_keep_the_alignment_of_their_columns() {
    let rendered = render("| a | b | c |\n| :-- | :-: | --: |\n| xxxx | yyyy | zzzz |\n");
    assert!(rendered.text.contains("│ a    │  b   │    c │"), "{}", rendered.text);
}

#[test]
fn headings_keep_their_levels() {
    let rendered = render("# One\n\n### Three\n\n###### Six\n");
    let kinds: Vec<TextStyleKind> = rendered.styles.iter().map(|style| style.kind()).collect();
    assert_eq!(
        kinds,
        [TextStyleKind::Heading(1), TextStyleKind::Heading(3), TextStyleKind::Heading(6)]
    );
    assert!(render_events(Vec::new(), "nothing").text.is_empty());
}

// -----------------------------------------------------------------------------------------
// Plain text and tables of contents
// -----------------------------------------------------------------------------------------

fn detected(text: &str) -> Vec<(String, u8, usize)> {
    detect_chapter_headings(text)
        .into_iter()
        .map(|entry| (entry.label().to_owned(), entry.depth(), entry.offset()))
        .collect()
}

#[test]
fn recognises_supported_line_start_forms() {
    let cases: &[(&str, &[(&str, u8)])] = &[
        ("第一章 标题", &[("第一章 标题", 0)]),
        ("第一章没有空格", &[("第一章没有空格", 0)]),
        ("第壹佰貳拾叁章 标题", &[("第壹佰貳拾叁章 标题", 0)]),
        ("CHAPTER 12 Arrival", &[("CHAPTER 12", 0)]),
        ("番外 春日", &[("番外", 0)]),
    ];

    for (text, expected) in cases {
        let actual = detected(text)
            .into_iter()
            .map(|(label, depth, _)| (label, depth))
            .collect::<Vec<_>>();
        let expected = expected
            .iter()
            .map(|(label, depth)| ((*label).to_owned(), *depth))
            .collect::<Vec<_>>();
        assert_eq!(actual, expected, "input: {text:?}");
    }
}

#[test]
fn rejects_prose_collisions_and_embedded_markers() {
    for text in [
        "第二回合开始后，众人沉默了。",
        "第二部长篇小说并不是卷名。",
        "他说到第二回往事时停了下来。",
        "这里没有章节标题。",
    ] {
        assert!(detected(text).is_empty(), "input: {text:?}");
    }
}

#[test]
fn preserves_indentation_offsets_and_volume_hierarchy() {
    let text = [
        "　第一卷　最后一战　第一章　心事一灯知\n",
        "正文。\n",
        "第一卷　最后一战　第二章　痛作无家别\n",
    ]
    .concat();

    assert_eq!(
        detected(&text),
        vec![
            ("第一卷　最后一战".to_owned(), 0, '　'.len_utf8()),
            ("第一章　心事一灯知".to_owned(), 1, '　'.len_utf8()),
            (
                "第二章　痛作无家别".to_owned(),
                1,
                "　第一卷　最后一战　第一章　心事一灯知\n正文。\n".len(),
            ),
        ]
    );
}

#[test]
fn keeps_duplicate_chapter_numbers_with_distinct_titles() {
    let entries = detected("第1357章 昨日\n正文。\n第1357章 明日");
    assert_eq!(entries.len(), 2);
    assert_eq!(entries[0].0, "第1357章 昨日");
    assert_eq!(entries[1].0, "第1357章 明日");
    assert!(entries[0].2 < entries[1].2);
}

#[test]
fn compatibility_ignores_punctuation_case_and_optional_suffixes() {
    assert!(labels_compatible("Chapter 12: Arrival", "chapter-12"));
    assert!(labels_compatible("第一章 风起", "第一章"));
    assert!(!labels_compatible("第一章 风起", "第二章 云涌"));
}

#[test]
fn visible_labels_and_landmarks_use_the_same_semantic_key() {
    let text = "\n  第一章：风起\n正文";
    assert!(label_is_visible_at(text, "第一章 风起", 0));
    assert!(label_is_landmark("版 权 页"));
    assert!(!label_is_landmark("第一章"));
}

#[test]
fn normalises_all_common_newlines() {
    assert_eq!(normalise_newlines("a\r\nb\rc\n"), "a\nb\nc\n");
}

#[test]
fn decodes_utf8_bom() {
    let (text, fallback) = decode(b"\xef\xbb\xbfhello").unwrap();
    assert_eq!(text, "hello");
    assert!(!fallback);
}

#[test]
fn decodes_gb18030_fallback() {
    let (bytes, _, had_errors) = encoding_rs::GBK.encode("第一章");
    assert!(!had_errors);
    let (text, fallback) = decode(&bytes).unwrap();
    assert_eq!(text, "第一章");
    assert!(fallback);
}

#[test]
fn bytes_of_no_encoding_are_refused_and_control_characters_are_noticed() {
    assert!(matches!(open("book.txt", &[0x81, 0xff]), Err(LoadError::InvalidTextEncoding)));
    assert!(looks_binary("\u{1}\u{2}abc"));
    assert!(!looks_binary("abc\tdef\r\n"));
    assert!(!looks_binary(""));
}

#[test]
fn limits_on_sizes_are_kept() {
    let options = LoadOptions { max_input_bytes: 4, max_text_bytes: 3 };
    let load = |name: &str, bytes: &[u8]| {
        load_document(&source_of(name), name.to_owned(), bytes, options)
    };
    assert_eq!(
        load("a.txt", b"12345").unwrap_err().message(),
        "a.txt is larger than the 4 byte input limit"
    );
    assert!(matches!(load("a.txt", b"1234"), Err(LoadError::TextTooLarge { limit: 3 })));
    assert!(matches!(load("a.md", b"1234"), Err(LoadError::TextTooLarge { limit: 3 })));
    assert_eq!(load("a.txt", b"123").unwrap().document().text(), "123");
}

// -----------------------------------------------------------------------------------------
// All formats
// -----------------------------------------------------------------------------------------

#[test]
fn txt_flows_through_the_public_document_interface() {
    let loaded = open("smoke.txt", "第一章\n故事开始。\n\n第二章\n故事继续。\n".as_bytes()).unwrap();

    assert_eq!(loaded.format(), DocumentFormat::Txt);
    assert!(loaded.document().text().contains("第一章"));
    assert!(!loaded.fingerprint().is_empty());

    let mut viewport = Viewport::new(loaded.document().text(), 0);
    viewport.set_width(20);
    let first_page = viewport.visible_lines(loaded.document().text(), 4);
    assert_eq!(&loaded.document().text()[first_page[0].range()], "第一章");

    let found = find_next(
        loaded.document().text(),
        &SearchQuery::new(SearchKind::LooseLiteral, "第二章"),
        0,
        SearchDirection::Forward,
    )
    .unwrap()
    .unwrap();
    viewport.goto_byte(loaded.document().text(), found.start);
    assert!(viewport.progress_chars(loaded.document().text()) > 0);
}

#[test]
fn markdown_flows_through_the_public_document_interface() {
    let source = "---\ntitle: Peep Markdown 冒烟文档\nauthor: Peep tests\n---\n\n# 开始阅读\n\n\
        源码软换行重新排版，\n`code`，~~旧~~，[文档](https://example.com/docs)。\n\n> 引用\n\n\
        ## 表格\n\n| 名称 | 说明 |\n| --- | --- |\n| a | b |\n\n\
        ![架构图](assets/architecture.png)\n";
    let loaded = open("smoke.md", source.as_bytes()).unwrap();
    let document = loaded.document();

    assert_eq!(loaded.format(), DocumentFormat::Markdown);
    assert_eq!(document.metadata().title(), Some("Peep Markdown 冒烟文档"));
    assert_eq!(document.metadata().author(), Some("Peep tests"));
    assert_eq!(document.toc().len(), 2);
    assert_eq!(document.toc()[0].label(), "开始阅读");
    assert_eq!(document.toc()[1].label(), "表格");
    assert!(document.text().contains("源码软换行重新排版"));
    assert!(document.text().contains("文档 <https://example.com/docs>"));
    assert!(document.text().contains('┌'));
    assert!(document.text().contains("[Image: 架构图] <assets/architecture.png>"));

    for entry in document.toc() {
        assert!(document.text()[entry.offset()..].starts_with(entry.label()));
    }
    for style in document.styles() {
        let range = style.range();
        assert!(range.start < range.end);
        assert!(range.end <= document.text().len());
        assert!(document.text().is_char_boundary(range.start));
        assert!(document.text().is_char_boundary(range.end));
    }
    assert!(document.styles().iter().any(|style| style.kind() == TextStyleKind::Code));
    assert!(document.styles().iter().any(|style| style.kind() == TextStyleKind::Link));
    assert!(document.styles().iter().any(|style| style.kind() == TextStyleKind::Quote));
    assert!(document.styles().iter().any(|style| style.kind() == TextStyleKind::Strikethrough));
}

#[test]
fn markdown_detection_is_extension_driven_and_requires_utf8() {
    let loaded = open("markdown-looking.txt", "# 仍然是 TXT\n".as_bytes()).unwrap();
    assert_eq!(loaded.format(), DocumentFormat::Txt);
    assert_eq!(loaded.document().text(), "# 仍然是 TXT\n");

    let error = open("invalid.md", &[0xff, 0xfe])
        .expect_err("invalid Markdown must not fall back to the TXT adapter");
    assert!(matches!(error, LoadError::InvalidMarkdownEncoding));
}

#[test]
fn the_fingerprint_is_that_of_the_bytes() {
    let loaded = open("a.txt", b"hello").unwrap();
    assert_eq!(loaded.fingerprint(), blake3::hash(b"hello").to_hex().to_string());
    assert_eq!(loaded.path(), "/books/a.txt");
    assert_eq!(open("b.txt", b"hello").unwrap().fingerprint(), loaded.fingerprint());
    assert_ne!(open("b.txt", b"other").unwrap().fingerprint(), loaded.fingerprint());
}

#[test]
fn sections_are_the_files_with_text_and_two_line_feeds_between_them() {
    let loaded = open_test_epub(&[
        ("META-INF/container.xml", container_xml()),
        (
            "OPS/book.opf",
            package_xml(
                r#"<item id="a" href="a.xhtml" media-type="application/xhtml+xml"/>
                   <item id="b" href="b.xhtml" media-type="application/xhtml+xml"/>
                   <item id="c" href="c.xhtml" media-type="application/xhtml+xml"/>"#,
                r#"<itemref idref="c"/><itemref idref="b"/><itemref idref="a"/>"#,
            ),
        ),
        ("OPS/a.xhtml", "<html><body><p>first file</p></body></html>".to_owned()),
        ("OPS/b.xhtml", "<html><body><p> </p></body></html>".to_owned()),
        ("OPS/c.xhtml", "<html><body><p>third file</p></body></html>".to_owned()),
    ]);
    let document = loaded.document();
    assert_eq!(document.text(), "third file\n\nfirst file");
    let ranges: Vec<_> = document.sections().iter().map(|section| section.range()).collect();
    assert_eq!(ranges, vec![0..10, 12..22]);
    assert_eq!(document.sections()[0].title(), "c");
}

#[test]
fn plain_text_and_markdown_have_one_section() {
    for name in ["book.txt", "book.md"] {
        let loaded = open(name, "# One\n\ntext\n\n# Two\n\nmore".as_bytes()).unwrap();
        let document = loaded.document();
        let ranges: Vec<_> = document.sections().iter().map(|section| section.range()).collect();
        assert_eq!(ranges, vec![0..document.text().len()]);
    }
}

#[test]
fn fingerprints_are_those_of_the_bytes() {
    let empty = open("empty.txt", b"").unwrap();
    assert_eq!(
        empty.fingerprint(),
        "af1349b9f5f9a1a6a0404dea36dcc9499bcb25c9adc112b7cc9a93cae41f3262"
    );
    let other = open("other.txt", b"other").unwrap();
    assert_eq!(other.fingerprint().len(), 64);
    assert_ne!(other.fingerprint(), empty.fingerprint());
}

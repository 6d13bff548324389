use pdf_terminal_reader::args::AppArgs;
use pdf_terminal_reader::image::inline_image_sequence;
use pdf_terminal_reader::pdf::PdfSize;

#[test]
fn inline_image_escape_sequence() {
    let size = PdfSize::new(1200, 1500, 0, 0);
    assert_eq!(
        inline_image_sequence(b"hello", &size),
        "\x1b]1337;File=inline=1;size=5;width=1200px;height=1500px;doNotMoveCursor=1:aGVsbG8=\x07"
    );
    let odd = PdfSize::new(-3, 0, 1, 1);
    assert_eq!(
        inline_image_sequence(&[], &odd),
        "\x1b]1337;File=inline=1;size=0;width=-3px;height=0px;doNotMoveCursor=1:\x07"
    );
}

#[test]
fn document_to_open() {
    let named = AppArgs { path: Some("a.pdf".to_string()) };
    assert_eq!(named.pdf_path(Some("b.pdf".to_string())), Some("a.pdf".to_string()));
    let none = AppArgs { path: None };
    assert_eq!(none.pdf_path(Some("b.pdf".to_string())), Some("b.pdf".to_string()));
    let none = AppArgs { path: None };
    assert_eq!(none.pdf_path(None), None);
}

use mwin::surface::Format;

#[test]
fn it_works() {
    assert_eq!(2 + 2, 4);
}

#[test]
fn default_format_is_argb() {
    assert_eq!(Format::default(), Format::Argb8888);
}

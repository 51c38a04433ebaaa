use web_snapshot::huaban::{more_pins_address, pin_image_address, HuaBanHandler};

#[test]
fn handler_keeps_its_path() {
    let h = HuaBanHandler::new("/tmp/pins");
    assert_eq!(h.path, "/tmp/pins");
}

#[test]
fn image_address() {
    assert_eq!(pin_image_address("abc123"), "https://hbimg.huabanimg.com/abc123");
}

#[test]
fn more_pins_page_address() {
    assert_eq!(
        more_pins_address("4242"),
        "https://huaban.com/discovery/beauty/?kqfbzohe&max=4242&limit=30&wfl=1"
    );
}

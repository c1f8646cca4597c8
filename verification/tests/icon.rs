use rfshare::app::TrayEvent;
use rfshare::icon::{load_icon, menu_event, IconError};

#[test]
fn an_icon_is_read() {
    let pixels: Vec<u8> = vec![1, 2, 3, 255, 10, 20, 30, 128];
    let image = image::RgbaImage::from_raw(2, 1, pixels.clone()).unwrap();
    let mut png = std::io::Cursor::new(Vec::new());
    image.write_to(&mut png, image::ImageFormat::Png).unwrap();
    match load_icon(png.get_ref()) {
        Ok(p) => {
            assert_eq!((p.width, p.height), (2, 1));
            assert_eq!(p.rgba, pixels);
        },
        Err(_) => panic!("not read"),
    }
}

#[test]
fn other_data_is_no_icon() {
    assert_eq!(load_icon(b"not a picture").err(), Some(IconError::Unreadable));
}

#[test]
fn the_menu_of_the_tray_icon() {
    assert_eq!(menu_event("1", "1", "2"), Some(TrayEvent::ShowWindow));
    assert_eq!(menu_event("2", "1", "2"), Some(TrayEvent::Quit));
    assert_eq!(menu_event("3", "1", "2"), None);
}

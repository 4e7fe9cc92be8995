use wheelc::{hwio, os, sdl};

#[test]
fn hardware_access_is_unavailable() {
    assert_eq!(hwio::cpu_cli(), -1);
    assert_eq!(hwio::port_read_byte(0x60), -1);
    assert_eq!(hwio::mem_write_qword(0x1000, 7), -1);
    assert_eq!(hwio::cpu_set_rflags(0), -1);
}

#[test]
fn system_calls_are_unavailable() {
    assert_eq!(os::fork(), -1);
    assert_eq!(os::write(1, 0, 3), -1);
    assert_eq!(os::sleep(5), 0);
    assert_eq!(os::usleep(5), -1);
    assert_eq!(os::system(0), -1);
}

#[test]
fn graphics_are_unavailable() {
    assert_eq!(sdl::init(), -1);
    assert_eq!(sdl::draw_rect(0, 0, 1, 1, 255, 0, 0), -1);
    assert_eq!(sdl::quit(), -1);
    let w = sdl::Window::new("demo", 640, 480);
    assert_eq!(w.title, "demo");
    assert_eq!((w.width, w.height), (640, 480));
}

use static_key::arch::{Arch, FALLTHROUGH};
use static_key::patch::TextGuard;
use static_key::text::CodeImage;
use static_key::{CallSite, StaticKey};

type Matcher = fn(&bool) -> usize;

// `static_if!(KEY)`: the `false` arm is likely, `true` jumps to label 0.
fn if_unlikely(v: &bool) -> usize {
    if *v { 0 } else { FALLTHROUGH }
}

// `static_if!(KEY, likely)`: the `true` arm is likely.
fn if_likely(v: &bool) -> usize {
    if *v { FALLTHROUGH } else { 0 }
}

const NOP5: [u8; 5] = [0x0f, 0x1f, 0x44, 0x00, 0x00];
const UD2: [u8; 5] = [0x0f, 0x0b, 0x0f, 0x0b, 0x90];

fn image() -> CodeImage {
    let mut bytes = vec![0xcc; 32];
    bytes[0..5].copy_from_slice(&UD2);
    bytes[16..21].copy_from_slice(&UD2);
    CodeImage::new(0x4000, bytes)
}

#[test]
fn new_key_holds_its_value() {
    let key: StaticKey<bool, Matcher> = StaticKey::new(true);
    assert!(key.get());
    assert_eq!(key.with(|v| if *v { 1 } else { 2 }), 1);
}

#[test]
fn register_installs_code_for_current_value() {
    let mut key: StaticKey<bool, Matcher> = StaticKey::new(false);
    let mut image = image();
    let mut guard = TextGuard::new();
    let site = CallSite::new(0x4000, if_unlikely as Matcher, vec![0x40]);
    let span = site.register(&mut key, &mut guard, &mut image, Arch::X86_64, 0x1000);
    assert_eq!(span.map(|s| (s.start, s.len)), Some((0x4000, 0x1000)));
    assert!(span.is_some());
    assert!(!guard.need_sync());
    assert_eq!(&image.bytes()[0..5], &NOP5);
    assert_eq!(&image.bytes()[16..21], &UD2);
}

#[test]
fn set_rewrites_every_call_site() {
    let mut key: StaticKey<bool, Matcher> = StaticKey::new(false);
    let mut image = image();
    let mut guard = TextGuard::new();
    CallSite::new(0x4000, if_unlikely as Matcher, vec![0x40]).register(
        &mut key,
        &mut guard,
        &mut image,
        Arch::X86_64,
        0x1000,
    );
    CallSite::new(0x4010, if_likely as Matcher, vec![0xffff_fff0]).register(
        &mut key,
        &mut guard,
        &mut image,
        Arch::X86_64,
        0x1000,
    );
    assert_eq!(&image.bytes()[0..5], &NOP5);
    assert_eq!(&image.bytes()[16..21], &[0xe9, 0xf0, 0xff, 0xff, 0xff]);

    let mut guard = TextGuard::new();
    key.set(&mut guard, &mut image, true, Arch::X86_64);
    assert!(key.get());
    assert!(guard.need_sync());
    assert_eq!(&image.bytes()[0..5], &[0xe9, 0x40, 0, 0, 0]);
    assert_eq!(&image.bytes()[16..21], &NOP5);
    assert_eq!(&image.bytes()[5..16], &[0xcc; 11]);

    let mut guard = TextGuard::new();
    key.set(&mut guard, &mut image, true, Arch::X86_64);
    assert!(!guard.need_sync());

    let mut guard = TextGuard::new();
    key.set(&mut guard, &mut image, false, Arch::X86_64);
    assert!(!key.get());
    assert_eq!(&image.bytes()[0..5], &NOP5);
    assert_eq!(&image.bytes()[16..21], &[0xe9, 0xf0, 0xff, 0xff, 0xff]);
}

#[test]
fn set_on_riscv() {
    let mut key: StaticKey<bool, Matcher> = StaticKey::new(true);
    let mut image = CodeImage::new(0x8000, vec![0; 8]);
    let mut guard = TextGuard::new();
    let site = CallSite::new(0x8004, if_unlikely as Matcher, vec![0x7fffe]);
    assert_eq!(site.address(), 0x8004);
    assert_eq!(site.labels(), &[0x7fffe]);
    site.register(&mut key, &mut guard, &mut image, Arch::Riscv64, 0x1000);
    assert_eq!(image.bytes(), &[0, 0, 0, 0, 0x6f, 0xf0, 0xf7, 0x7f]);
    let mut guard = TextGuard::new();
    key.set(&mut guard, &mut image, false, Arch::Riscv64);
    assert_eq!(image.bytes(), &[0, 0, 0, 0, 0x13, 0, 0, 0]);
}

#[test]
fn callsite_update_returns_matcher_result() {
    let mut image = image();
    let mut guard = TextGuard::new();
    let site = CallSite::new(0x4000, if_unlikely as Matcher, vec![0x40]);
    assert_eq!(site.update(&mut guard, &mut image, &true, Arch::X86_64), 0);
    assert_eq!(&image.bytes()[0..5], &[0xe9, 0x40, 0, 0, 0]);
    assert_eq!(site.update(&mut guard, &mut image, &false, Arch::X86_64), FALLTHROUGH);
    assert_eq!(&image.bytes()[0..5], &NOP5);
}

#[test]
fn register_with_unusable_page_size_still_installs() {
    let mut key: StaticKey<bool, Matcher> = StaticKey::new(true);
    let mut image = image();
    let mut guard = TextGuard::new();
    let site = CallSite::new(0x4000, if_unlikely as Matcher, vec![0x40]);
    assert!(site.register(&mut key, &mut guard, &mut image, Arch::X86_64, 3000).is_none());
    assert_eq!(&image.bytes()[0..5], &[0xe9, 0x40, 0, 0, 0]);
    assert!(!guard.need_sync());
}

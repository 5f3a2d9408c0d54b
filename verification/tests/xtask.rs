use touch_n_drink::xtask::{
    all_chips, checksum_file, checksum_file_line, replace_extension, default_chip, path_text, BuildArgs, Chip, ClippyArgs, MainCommand,
    PrintCommand, Program, Step,
};

fn chip() -> Chip {
    Chip::from_str("esp32c3").unwrap()
}

fn strings(v: &[&str]) -> Vec<String> {
    v.iter().map(|s| s.to_string()).collect()
}

#[test]
fn chips() {
    assert_eq!(default_chip(), "esp32c3");
    let chips = all_chips();
    assert_eq!(chips.len(), 1);
    assert_eq!(chips[0].name, "esp32c3");
    assert_eq!(chips[0].package, "esp32");
    assert_eq!(chips[0].target, "riscv32imc-unknown-none-elf");
    assert!(Chip::from_str("esp32s3").is_none());
}

#[test]
fn build_profile() {
    let args = BuildArgs { chip: chip(), args: strings(&["--release", "-v"]) };
    assert_eq!(args.profile(), "release");
    let args = BuildArgs { chip: chip(), args: strings(&["-v"]) };
    assert_eq!(args.profile(), "debug");
}

#[test]
fn build_steps() {
    let args = BuildArgs { chip: chip(), args: strings(&["--release"]) };
    let steps = args.run(None);
    assert_eq!(steps.len(), 10);
    assert!(matches!(&steps[0], Step::Note(t) if t == "Building images for firmware variant `esp32c3`"));
    assert!(matches!(&steps[1], Step::Run(Program::Cargo, a)
        if *a == strings(&["build", "--package", "esp32", "--target", "riscv32imc-unknown-none-elf", "--release"])));
    assert!(matches!(&steps[2], Step::CreateDirAll(d) if *d == strings(&["target", "release", "images"])));
    assert!(matches!(&steps[3], Step::Copy(a, b)
        if *a == strings(&["target", "riscv32imc-unknown-none-elf", "release", "esp32"])
            && *b == strings(&["target", "release", "images", "touch-n-drink-esp32c3.elf"])));
    assert!(matches!(&steps[4], Step::Run(Program::Espflash, a)
        if *a == strings(&["save-image", "--chip", "esp32c3",
            "target/release/images/touch-n-drink-esp32c3.elf",
            "target/release/images/touch-n-drink-esp32c3.bin"])));
    assert!(matches!(&steps[5], Step::Sha256(f, c)
        if *f == strings(&["target", "release", "images", "touch-n-drink-esp32c3.bin"])
            && *c == strings(&["target", "release", "images", "touch-n-drink-esp32c3.sha256"])));
    assert!(matches!(&steps[6], Step::Note(t)
        if t == "OTA image for firmware variant `esp32c3`: target/release/images/touch-n-drink-esp32c3.bin"));
    assert!(matches!(&steps[7], Step::Run(Program::Espflash, a)
        if a.len() == 9 && a[3] == "--merge" && a[8] == "target/release/images/touch-n-drink-esp32c3.factory.bin"));
    assert!(matches!(&steps[8], Step::Sha256(f, c)
        if *f == strings(&["target", "release", "images", "touch-n-drink-esp32c3.factory.bin"])
            && *c == strings(&["target", "release", "images", "touch-n-drink-esp32c3.factory.sha256"])));
    assert!(matches!(&steps[9], Step::Note(t)
        if t == "Factory image for firmware variant `esp32c3`: target/release/images/touch-n-drink-esp32c3.factory.bin"));

    let steps = BuildArgs { chip: chip(), args: vec![] }.run(Some("/tmp/t".to_string()));
    assert!(matches!(&steps[2], Step::CreateDirAll(d) if *d == strings(&["/tmp/t", "debug", "images"])));
}

#[test]
fn main_commands() {
    let steps = MainCommand::Clippy(ClippyArgs { chip: chip(), args: strings(&["--", "-D", "warnings"]) }).run(None);
    assert_eq!(steps.len(), 2);
    assert!(matches!(&steps[1], Step::Run(Program::Cargo, a)
        if *a == strings(&["clippy", "--package", "esp32", "--target", "riscv32imc-unknown-none-elf", "--", "-D", "warnings"])));
    let steps = MainCommand::Print(PrintCommand::Target { chip: chip() }).run(None);
    assert!(matches!(&steps[0], Step::Note(t) if t == "riscv32imc-unknown-none-elf"));
    let steps = PrintCommand::Chips.run();
    assert!(matches!(&steps[0], Step::Note(t) if t == "esp32c3"));
}

#[test]
fn paths_and_checksums() {
    assert_eq!(path_text(&strings(&["a", "b", "c.bin"])), "a/b/c.bin");
    assert_eq!(path_text(&[]), "");
    assert_eq!(
        checksum_file_line(b"abc", "x.bin"),
        "ba7816bf8f01cfea414140de5dae2223b00361a396177a9cb410ff61f20015ad  x.bin\n"
    );
}

#[test]
fn checksum_text_of_digest() {
    assert_eq!(touch_n_drink::xtask::checksum_text(&[0xab, 0x01], "f.bin"), "ab01  f.bin\n");
}

#[test]
fn checksum_file_paths() {
    assert_eq!(replace_extension("image.factory.bin", "sha256"), "image.factory.sha256");
    assert_eq!(replace_extension("image", "sha256"), "image.sha256");
    assert_eq!(replace_extension(".hidden", "sha256"), ".hidden.sha256");
    assert_eq!(replace_extension("name.", "sha256"), "name.sha256");
    assert_eq!(
        checksum_file(&strings(&["out", "fw.bin"])),
        strings(&["out", "fw.sha256"])
    );
}

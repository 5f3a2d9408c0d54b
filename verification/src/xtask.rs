//! Build tasks: the firmware variants (chips) and the steps that building, checking and running
//! them take (which commands run with which arguments, which files are made)

use crate::digest::{sha256, sha256_digest};
use crate::text::{ascii_chars, hex_digit_lower, hex_lower};
use vstd::prelude::*;
use vstd::string::StringExecFns;

verus! {

/// Chip configuration (determines package and target to use)
#[derive(Debug, Clone, Copy)]
pub struct Chip {
    /// Name of the chip (firmware variant), for use with `--chip name` options
    pub name: &'static str,
    /// Package to build for this chip
    pub package: &'static str,
    /// Target triple to use to build for this chip
    pub target: &'static str,
}

/// Name of the chip built by default
pub open spec fn default_chip_name() -> Seq<char> {
    "esp32c3"@
}

/// The supported chip: name, package and target
pub open spec fn esp32c3() -> (Seq<char>, Seq<char>, Seq<char>) {
    ("esp32c3"@, "esp32"@, "riscv32imc-unknown-none-elf"@)
}

/// Views of a chip
pub open spec fn chip_view(c: Chip) -> (Seq<char>, Seq<char>, Seq<char>) {
    (c.name@, c.package@, c.target@)
}

/// All chips that firmware can be built for
pub fn all_chips() -> (r: Vec<Chip>)
    ensures
        r@.len() == 1,
        chip_view(r@[0]) == esp32c3(),
{
    let mut v: Vec<Chip> = Vec::new();
    v.push(Chip { name: "esp32c3", package: "esp32", target: "riscv32imc-unknown-none-elf" });
    v
}

/// Name of the chip built by default
pub fn default_chip() -> (r: &'static str)
    ensures
        r@ == default_chip_name(),
{
    "esp32c3"
}

/// Whether two strings are equal
fn str_eq(a: &str, b: &str) -> (r: bool)
    ensures
        r == (a@ == b@),
{
    let x = crate::json::reader::string_chars(a);
    let y = crate::json::reader::string_chars(b);
    crate::json::reader::chars_eq(x.as_slice(), y.as_slice())
}

impl Chip {
    /// The chip of the given name, if it is supported
    pub fn from_str(s: &str) -> (r: Option<Chip>)
        ensures
            s@ == esp32c3().0 ==> (r matches Some(c) && chip_view(c) == esp32c3()),
            s@ != esp32c3().0 ==> r is None,
    {
        let chips = all_chips();
        let mut i: usize = 0;
        while i < chips.len()
            invariant
                i <= chips@.len(),
                chips@.len() == 1,
                chip_view(chips@[0]) == esp32c3(),
                forall|j: int| 0 <= j < i ==> chips@[j].name@ != s@,
            decreases chips.len() - i,
        {
            if str_eq(chips[i].name, s) {
                return Some(chips[i]);
            }
            i = i + 1;
        }
        None
    }
}

/// Program a step runs
#[derive(Debug, Clone, Copy, PartialEq, Eq, Structural)]
pub enum Program {
    Cargo,
    Espflash,
}

/// One step of a task
#[derive(Debug)]
pub enum Step {
    /// Print a message
    Note(String),
    /// Run a program in the workspace root with the given arguments
    Run(Program, Vec<String>),
    /// Create a directory (given by its path components) and its parents
    CreateDirAll(Vec<String>),
    /// Copy a file (paths given by their components)
    Copy(Vec<String>, Vec<String>),
    /// Write the checksum file of a file (the first path) to the second path: one line of
    /// `checksum_file_line` for the file's content and its file name (the last component)
    Sha256(Vec<String>, Vec<String>),
}

/// Model of a step: texts and paths (path components) as character sequences
pub enum StepView {
    Note(Seq<char>),
    Run(Program, Seq<Seq<char>>),
    CreateDirAll(Seq<Seq<char>>),
    Copy(Seq<Seq<char>>, Seq<Seq<char>>),
    Sha256(Seq<Seq<char>>, Seq<Seq<char>>),
}

/// Model of a step
pub open spec fn step_view(step: Step) -> StepView {
    match step {
        Step::Note(t) => StepView::Note(t@),
        Step::Run(p, a) => StepView::Run(p, strs(a@)),
        Step::CreateDirAll(d) => StepView::CreateDirAll(strs(d@)),
        Step::Copy(a, b) => StepView::Copy(strs(a@), strs(b@)),
        Step::Sha256(f, c) => StepView::Sha256(strs(f@), strs(c@)),
    }
}

/// Model of a sequence of steps
pub open spec fn steps_view(steps: Seq<Step>) -> Seq<StepView> {
    steps.map_values(|step: Step| step_view(step))
}

/// Profile selected by build arguments: release if `--release` is among them
pub open spec fn spec_profile(args: Seq<Seq<char>>) -> Seq<char> {
    if args.contains("--release"@) {
        "release"@
    } else {
        "debug"@
    }
}

/// Views of strings
pub open spec fn strs(v: Seq<String>) -> Seq<Seq<char>> {
    v.map_values(|s: String| s@)
}

/// Build command arguments
#[derive(Debug)]
pub struct BuildArgs {
    /// The firmware variant (chip) to build
    pub chip: Chip,
    /// Additional arguments forwarded to `cargo build`
    pub args: Vec<String>,
}

/// Copy of strings
fn copy_strings(v: &[String]) -> (r: Vec<String>)
    ensures
        strs(r@) == strs(v@),
{
    let mut out: Vec<String> = Vec::new();
    let mut i: usize = 0;
    while i < v.len()
        invariant
            i <= v@.len(),
            strs(out@) == strs(v@.take(i as int)),
        decreases v.len() - i,
    {
        let ghost prev = out@;
        out.push(String::from_str(v[i].as_str()));
        assert(out@.drop_last() =~= prev);
        assert(strs(out@) =~= strs(prev).push(v@[i as int]@));
        assert(strs(v@.take(i + 1)) =~= strs(v@.take(i as int)).push(v@[i as int]@));
        i = i + 1;
    }
    assert(v@.take(i as int) =~= v@);
    out
}

/// String of a text
fn s(t: &str) -> (r: String)
    ensures
        r@ == t@,
{
    String::from_str(t)
}

/// Text joined from parts
fn concat3(a: &str, b: &str, c: &str) -> (r: String)
    ensures
        r@ == a@ + b@ + c@,
{
    let mut out = String::from_str(a);
    out.append(b);
    out.append(c);
    out
}

/// Arguments of a cargo command for a chip: the command, the chip's package and target, then the
/// forwarded arguments
pub open spec fn cargo_command(command: Seq<char>, chip: Chip, args: Seq<Seq<char>>) -> Seq<
    Seq<char>,
> {
    seq![command, "--package"@, chip.package@, "--target"@, chip.target@] + args
}

/// Arguments of a cargo command for a chip
fn cargo_args(command: &str, chip: Chip, args: &[String]) -> (r: Vec<String>)
    ensures
        strs(r@) == cargo_command(command@, chip, strs(args@)),
{
    let mut out: Vec<String> = Vec::new();
    out.push(s(command));
    out.push(s("--package"));
    out.push(s(chip.package));
    out.push(s("--target"));
    out.push(s(chip.target));
    let ghost head = out@;
    let mut rest = copy_strings(args);
    out.append(&mut rest);
    assert(strs(head) =~= seq![command@, "--package"@, chip.package@, "--target"@, chip.target@]);
    assert(strs(out@) =~= strs(head) + strs(args@));
    out
}

impl BuildArgs {
    /// Build profile: release if `--release` is among the forwarded arguments
    pub fn profile(&self) -> (r: &'static str)
        ensures
            r@ == spec_profile(strs(self.args@)),
    {
        let mut i: usize = 0;
        while i < self.args.len()
            invariant
                i <= self.args@.len(),
                forall|j: int| 0 <= j < i ==> self.args@[j]@ != "--release"@,
            decreases self.args.len() - i,
        {
            if str_eq(self.args[i].as_str(), "--release") {
                assert(strs(self.args@)[i as int] == "--release"@);
                return "release";
            }
            i = i + 1;
        }
        assert(!strs(self.args@).contains("--release"@)) by {
            if strs(self.args@).contains("--release"@) {
                let j = choose|j: int| 0 <= j < strs(self.args@).len() && strs(self.args@)[j]
                    == "--release"@;
                assert(self.args@[j]@ == "--release"@);
            }
        }
        "debug"
    }

    /// Steps of building a firmware variant: build with cargo, copy the ELF file into the images
    /// directory, make the OTA image and the factory image with espflash, and write their
    /// checksum files. `target_dir` is `CARGO_TARGET_DIR` if set.
    pub fn run(&self, target_dir: Option<String>) -> (r: Vec<Step>)
        ensures
            steps_view(r@) == build_steps(
                self.chip,
                strs(self.args@),
                match target_dir {
                    Some(d) => d@,
                    None => "target"@,
                },
                spec_profile(strs(self.args@)),
            ),
    {
        let profile = self.profile();
        let chip = self.chip.name;
        let dir = match target_dir {
            Some(d) => d,
            None => s("target"),
        };
        let ghost dv = dir@;
        let mut steps: Vec<Step> = Vec::new();
        steps.push(Step::Note(concat3("Building images for firmware variant `", chip, "`")));
        steps.push(Step::Run(Program::Cargo, cargo_args("build", self.chip, self.args.as_slice())));
        // images directory
        let mut image_dir: Vec<String> = Vec::new();
        image_dir.push(dir.clone());
        image_dir.push(s(profile));
        image_dir.push(s("images"));
        assert(strs(image_dir@) =~= seq![dv, profile@, "images"@]);
        steps.push(Step::CreateDirAll(copy_strings(image_dir.as_slice())));
        // ELF file
        let elf_file = with_file(image_dir.as_slice(), chip, ".elf");
        let mut elf_source: Vec<String> = Vec::new();
        elf_source.push(dir);
        elf_source.push(s(self.chip.target));
        elf_source.push(s(profile));
        elf_source.push(s(self.chip.package));
        assert(strs(elf_source@) =~= seq![dv, self.chip.target@, profile@, self.chip.package@]);
        steps.push(Step::Copy(elf_source, copy_strings(elf_file.as_slice())));
        // OTA image
        let ota_image = with_file(image_dir.as_slice(), chip, ".bin");
        let mut ota_args: Vec<String> = Vec::new();
        ota_args.push(s("save-image"));
        ota_args.push(s("--chip"));
        ota_args.push(s(chip));
        ota_args.push(path_text(elf_file.as_slice()));
        ota_args.push(path_text(ota_image.as_slice()));
        assert(strs(ota_args@) =~= seq![
            "save-image"@,
            "--chip"@,
            chip@,
            joined_path(strs(elf_file@)),
            joined_path(strs(ota_image@)),
        ]);
        steps.push(Step::Run(Program::Espflash, ota_args));
        steps.push(Step::Sha256(copy_strings(ota_image.as_slice()), checksum_file(ota_image.as_slice())));
        let mut ota_note = concat3("OTA image for firmware variant `", chip, "`: ");
        let ota_path = path_text(ota_image.as_slice());
        ota_note.append(ota_path.as_str());
        steps.push(Step::Note(ota_note));
        // factory image
        let factory_image = with_file(image_dir.as_slice(), chip, ".factory.bin");
        let mut factory_args: Vec<String> = Vec::new();
        factory_args.push(s("save-image"));
        factory_args.push(s("--chip"));
        factory_args.push(s(chip));
        factory_args.push(s("--merge"));
        factory_args.push(s("--skip-padding"));
        factory_args.push(s("--partition-table"));
        factory_args.push(s("esp32/partitions.csv"));
        factory_args.push(path_text(elf_file.as_slice()));
        factory_args.push(path_text(factory_image.as_slice()));
        assert(strs(factory_args@) =~= seq![
            "save-image"@,
            "--chip"@,
            chip@,
            "--merge"@,
            "--skip-padding"@,
            "--partition-table"@,
            "esp32/partitions.csv"@,
            joined_path(strs(elf_file@)),
            joined_path(strs(factory_image@)),
        ]);
        steps.push(Step::Run(Program::Espflash, factory_args));
        steps.push(
            Step::Sha256(
                copy_strings(factory_image.as_slice()),
                checksum_file(factory_image.as_slice()),
            ),
        );
        let mut factory_note = concat3("Factory image for firmware variant `", chip, "`: ");
        let factory_path = path_text(factory_image.as_slice());
        factory_note.append(factory_path.as_str());
        steps.push(Step::Note(factory_note));
        proof {
            let expected = build_steps(self.chip, strs(self.args@), dv, profile@);
            assert(steps@.len() == 10);
            assert forall|i: int| 0 <= i < 10 implies #[trigger] step_view(steps@[i]) == expected[i] by {
            }
            assert(steps_view(steps@) =~= expected);
        }
        steps
    }
}

/// File name of an image of a firmware variant
pub open spec fn image_name(chip: Seq<char>, ext: Seq<char>) -> Seq<char> {
    "touch-n-drink-"@ + chip + ext
}

/// Steps of building a firmware variant (see `BuildArgs::run`), for the given forwarded
/// arguments, target directory and profile
pub open spec fn build_steps(chip: Chip, args: Seq<Seq<char>>, dir: Seq<char>, profile: Seq<char>) -> Seq<
    StepView,
> {
    let c = chip.name@;
    let image_dir = seq![dir, profile, "images"@];
    let elf = image_dir.push(image_name(c, ".elf"@));
    let ota = image_dir.push(image_name(c, ".bin"@));
    let factory = image_dir.push(image_name(c, ".factory.bin"@));
    seq![
        StepView::Note("Building images for firmware variant `"@ + c + "`"@),
        StepView::Run(Program::Cargo, cargo_command("build"@, chip, args)),
        StepView::CreateDirAll(image_dir),
        StepView::Copy(seq![dir, chip.target@, profile, chip.package@], elf),
        StepView::Run(
            Program::Espflash,
            seq!["save-image"@, "--chip"@, c, joined_path(elf), joined_path(ota)],
        ),
        StepView::Sha256(ota, checksum_path(ota)),
        StepView::Note("OTA image for firmware variant `"@ + c + "`: "@ + joined_path(ota)),
        StepView::Run(
            Program::Espflash,
            seq![
                "save-image"@,
                "--chip"@,
                c,
                "--merge"@,
                "--skip-padding"@,
                "--partition-table"@,
                "esp32/partitions.csv"@,
                joined_path(elf),
                joined_path(factory),
            ],
        ),
        StepView::Sha256(factory, checksum_path(factory)),
        StepView::Note("Factory image for firmware variant `"@ + c + "`: "@ + joined_path(factory)),
    ]
}

/// Path of an image file in a directory: the directory's components and the image's file name
fn with_file(dir: &[String], chip: &str, ext: &str) -> (r: Vec<String>)
    ensures
        strs(r@) == strs(dir@).push(image_name(chip@, ext@)),
{
    let mut out = copy_strings(dir);
    let ghost prev = out@;
    out.push(concat3("touch-n-drink-", chip, ext));
    assert(out@.drop_last() =~= prev);
    assert(strs(out@) =~= strs(prev).push(image_name(chip@, ext@)));
    out
}

/// Position of the last `.` in a file name before position `end`
pub open spec fn last_dot(name: Seq<char>, end: int) -> Option<int>
    decreases end,
{
    if end <= 0 || end > name.len() {
        None
    } else if name[end - 1] == '.' {
        Some(end - 1)
    } else {
        last_dot(name, end - 1)
    }
}

/// A file name with its extension replaced by the given one, as `Path::with_extension` does: the
/// extension is what follows the last `.`, unless that `.` starts the name; a name without an
/// extension gets the new one appended
pub open spec fn with_extension(name: Seq<char>, ext: Seq<char>) -> Seq<char> {
    match last_dot(name, name.len() as int) {
        Some(i) => if i > 0 {
            name.take(i) + "."@ + ext
        } else {
            name + "."@ + ext
        },
        None => name + "."@ + ext,
    }
}

/// Path of the checksum file of a file: beside it, with the extension `sha256` in place of its
/// own
pub open spec fn checksum_path(file: Seq<Seq<char>>) -> Seq<Seq<char>> {
    file.drop_last().push(with_extension(file.last(), "sha256"@))
}

/// File name with its extension replaced
pub fn replace_extension(name: &str, ext: &str) -> (r: String)
    ensures
        r@ == with_extension(name@, ext@),
{
    let cs = crate::json::reader::string_chars(name);
    let n = cs.len();
    let mut i = n;
    while i > 0 && cs[i - 1] != '.'
        invariant
            i <= n,
            n == cs@.len(),
            cs@ == name@,
            last_dot(name@, n as int) == last_dot(name@, i as int),
        decreases i,
    {
        i = i - 1;
    }
    let mut out: Vec<char> = Vec::new();
    let keep = if i > 1 {
        i - 1
    } else {
        n
    };
    let mut j: usize = 0;
    while j < keep
        invariant
            keep <= n,
            n == cs@.len(),
            j <= keep,
            out@ == cs@.take(j as int),
        decreases keep - j,
    {
        out.push(cs[j]);
        assert(cs@.take(j + 1) =~= cs@.take(j as int).push(cs@[j as int]));
        j = j + 1;
    }
    let mut r = crate::ota::chars_to_string(out.as_slice());
    r.append(".");
    r.append(ext);
    proof {
        if i > 1 {
            assert(last_dot(name@, i as int) == Some((i - 1) as int));
        } else if i == 1 {
            assert(last_dot(name@, i as int) == Some(0int));
            assert(cs@.take(n as int) =~= name@);
        } else {
            assert(cs@.take(n as int) =~= name@);
        }
    }
    r
}

/// Path of the checksum file of a file (given by its path components)
pub fn checksum_file(file: &[String]) -> (r: Vec<String>)
    requires
        file@.len() > 0,
    ensures
        strs(r@) == checksum_path(strs(file@)),
{
    let n = file.len();
    let mut out = copy_strings(&file[0..n - 1]);
    let ghost prev = out@;
    out.push(replace_extension(file[n - 1].as_str(), "sha256"));
    proof {
        assert(file@.subrange(0, n - 1) =~= file@.drop_last());
        assert(strs(file@.drop_last()) =~= strs(file@).drop_last());
        assert(out@.drop_last() =~= prev);
        assert(strs(out@) =~= strs(prev).push(with_extension(strs(file@).last(), "sha256"@)));
    }
    out
}

/// Path text of path components, separated by `/`
pub open spec fn joined_path(parts: Seq<Seq<char>>) -> Seq<char>
    decreases parts.len(),
{
    if parts.len() == 0 {
        seq![]
    } else if parts.len() == 1 {
        parts[0]
    } else {
        joined_path(parts.drop_last()) + "/"@ + parts.last()
    }
}

/// Path text of path components
pub fn path_text(parts: &[String]) -> (r: String)
    ensures
        r@ == joined_path(strs(parts@)),
{
    let mut out = String::new();
    let mut i: usize = 0;
    while i < parts.len()
        invariant
            i <= parts@.len(),
            out@ == joined_path(strs(parts@.take(i as int))),
        decreases parts.len() - i,
    {
        let ghost t = parts@.take(i + 1);
        assert(strs(t).drop_last() =~= strs(parts@.take(i as int)));
        if i > 0 {
            out.append("/");
        } else {
            assert(strs(parts@.take(0)) =~= Seq::<Seq<char>>::empty());
        }
        out.append(parts[i].as_str());
        assert(out@ =~= joined_path(strs(t)));
        i = i + 1;
    }
    assert(parts@.take(i as int) =~= parts@);
    out
}

/// Checksum file line of a file: the digest in lower case hex, two spaces and the file name
pub open spec fn checksum_line(digest: Seq<u8>, filename: Seq<char>) -> Seq<char> {
    ascii_chars(hex_lower(digest)) + "  "@ + filename + "\n"@
}

/// Checksum file line of a digest and a file name: the digest in lower case hex, two spaces and
/// the file name
pub fn checksum_text(digest: &[u8], filename: &str) -> (r: String)
    ensures
        r@ == checksum_line(digest@, filename@),
{
    let mut hex: Vec<u8> = Vec::new();
    crate::nfc::write_hex_bytes(&mut hex, digest);
    let mut out = crate::text::ascii_to_string(hex.as_slice());
    out.append("  ");
    out.append(filename);
    out.append("\n");
    out
}

/// Checksum file line of a file's content: its SHA-256 digest in lower case hex, two spaces and
/// the file name
pub fn checksum_file_line(content: &[u8], filename: &str) -> (r: String)
    ensures
        r@ == checksum_line(sha256(content@), filename@),
        sha256(content@).len() == 32,
        r@.len() == 64 + 2 + filename@.len() + 1,
        forall|i: int| 0 <= i < 64 ==> is_lower_hex_char(#[trigger] r@[i]),
        r@.subrange(64, 66) == "  "@,
        r@.subrange(66, 66 + filename@.len() as int) == filename@,
        r@.last() == '\n',
{
    let digest = sha256_digest(content);
    let r = checksum_text(digest.as_slice(), filename);
    proof {
        let d = sha256(content@);
        let h = hex_lower(d);
        crate::text::lemma_hex_lower_index(d);
        let hc = ascii_chars(h);
        reveal_strlit("  ");
        reveal_strlit("\n");
        assert(hc.len() == 64);
        assert(r@ == hc + "  "@ + filename@ + "\n"@);
        assert forall|i: int| 0 <= i < 64 implies is_lower_hex_char(#[trigger] r@[i]) by {
            let k = i / 2;
            assert(0 <= k < 32);
            if i % 2 == 0 {
                assert(i == 2 * k);
                assert(h[2 * k] == hex_digit_lower(d[k] / 16));
            } else {
                assert(i == 2 * k + 1);
                assert(h[2 * k + 1] == hex_digit_lower(d[k] % 16));
            }
            assert(r@[i] == hc[i]);
            assert(hc[i] == h[i] as char);
        }
        assert(r@.subrange(64, 66) =~= "  "@);
        assert(r@.subrange(66, 66 + filename@.len() as int) =~= filename@);
    }
    r
}

/// A lower case hex digit: `0` to `9` or `a` to `f`
pub open spec fn is_lower_hex_char(c: char) -> bool {
    ('0' <= c <= '9') || ('a' <= c <= 'f')
}

/// Print command
#[derive(Debug)]
pub enum PrintCommand {
    /// Print list of firmware variants (chips) available for building
    Chips,
    /// Print package to use for the given firmware variant (chip)
    Package { chip: Chip },
    /// Print target triple to use for the given firmware variant (chip)
    Target { chip: Chip },
}

/// Steps of printing build information: the chips' names, or a chip's package or target
pub open spec fn print_steps(command: PrintCommand) -> Seq<StepView> {
    match command {
        PrintCommand::Chips => seq![StepView::Note(esp32c3().0)],
        PrintCommand::Package { chip } => seq![StepView::Note(chip.package@)],
        PrintCommand::Target { chip } => seq![StepView::Note(chip.target@)],
    }
}

impl PrintCommand {
    /// Steps of printing build information
    pub fn run(&self) -> (r: Vec<Step>)
        ensures
            steps_view(r@) == print_steps(*self),
    {
        let mut steps: Vec<Step> = Vec::new();
        match self {
            PrintCommand::Chips => {
                let chips = all_chips();
                steps.push(Step::Note(s(chips[0].name)));
            },
            PrintCommand::Package { chip } => steps.push(Step::Note(s(chip.package))),
            PrintCommand::Target { chip } => steps.push(Step::Note(s(chip.target))),
        }
        assert(steps_view(steps@) =~= print_steps(*self));
        steps
    }
}

/// Clippy command arguments
#[derive(Debug)]
pub struct ClippyArgs {
    /// The firmware variant (chip) to check
    pub chip: Chip,
    /// Additional arguments forwarded to `cargo clippy`
    pub args: Vec<String>,
}

/// Run command arguments
#[derive(Debug)]
pub struct RunArgs {
    /// The firmware variant (chip) to run
    pub chip: Chip,
    /// Additional arguments forwarded to `cargo run`
    pub args: Vec<String>,
}

/// Build task command
#[derive(Debug)]
pub enum MainCommand {
    /// Print build information
    Print(PrintCommand),
    /// Run code checks
    Clippy(ClippyArgs),
    /// Build firmware
    Build(BuildArgs),
    /// Build, flash and run firmware on an attached device
    Run(RunArgs),
}

/// Steps of running a cargo command for a chip: a note, then cargo
pub open spec fn cargo_steps(note: Seq<char>, command: Seq<char>, chip: Chip, args: Seq<Seq<char>>) -> Seq<
    StepView,
> {
    seq![
        StepView::Note(note + chip.name@ + "`"@),
        StepView::Run(Program::Cargo, cargo_command(command, chip, args)),
    ]
}

/// Steps of a build task command, with the target directory (`CARGO_TARGET_DIR`) if set
pub open spec fn command_steps(command: MainCommand, target_dir: Option<Seq<char>>) -> Seq<StepView> {
    match command {
        MainCommand::Print(p) => print_steps(p),
        MainCommand::Clippy(a) => cargo_steps(
            "Running code checks for firmware variant `"@,
            "clippy"@,
            a.chip,
            strs(a.args@),
        ),
        MainCommand::Build(b) => build_steps(
            b.chip,
            strs(b.args@),
            match target_dir {
                Some(d) => d,
                None => "target"@,
            },
            spec_profile(strs(b.args@)),
        ),
        MainCommand::Run(a) => cargo_steps(
            "Running firmware variant `"@,
            "run"@,
            a.chip,
            strs(a.args@),
        ),
    }
}

impl MainCommand {
    /// Steps of the command: checks and runs go through cargo with the chip's package and
    /// target, builds as `BuildArgs::run` lays out
    pub fn run(&self, target_dir: Option<String>) -> (r: Vec<Step>)
        ensures
            steps_view(r@) == command_steps(
                *self,
                match target_dir {
                    Some(d) => Some(d@),
                    None => None::<Seq<char>>,
                },
            ),
    {
        match self {
            MainCommand::Print(p) => p.run(),
            MainCommand::Clippy(a) => {
                let mut steps: Vec<Step> = Vec::new();
                steps.push(Step::Note(concat3("Running code checks for firmware variant `", a.chip.name, "`")));
                steps.push(Step::Run(Program::Cargo, cargo_args("clippy", a.chip, a.args.as_slice())));
                assert(steps_view(steps@) =~= command_steps(*self, None));
                steps
            },
            MainCommand::Build(b) => b.run(target_dir),
            MainCommand::Run(a) => {
                let mut steps: Vec<Step> = Vec::new();
                steps.push(Step::Note(concat3("Running firmware variant `", a.chip.name, "`")));
                steps.push(Step::Run(Program::Cargo, cargo_args("run", a.chip, a.args.as_slice())));
                assert(steps_view(steps@) =~= command_steps(*self, None));
                steps
            },
        }
    }
}

} // verus!

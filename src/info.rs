use vstd::prelude::*;

use crate::config::opt_view;
use crossterm::style::Stylize;

use crate::text::{decimal, push_char, push_decimal, push_str, to_chars, utf8_len, utf8_length};

verus! {

/// The facts that a platform backend can report. Every accessor may come back
/// empty: `None` for a single fact, an empty list for a multi-valued one.
/// `id` always answers: a backend that cannot tell returns a fixed name.
pub trait OSInfo {
    fn sys_font(&self) -> Option<String>;

    fn cursor(&self) -> Option<String>;

    fn terminal(&self) -> Option<String>;

    fn term_font(&self) -> Option<String>;

    fn gpus(&self) -> Vec<String>;

    fn memory(&self) -> Option<String>;

    fn disks(&self) -> Vec<(String, String)>;

    fn battery(&self) -> Option<String>;

    fn locale(&self) -> Option<String>;

    fn theme(&self) -> Option<String>;

    fn icons(&self) -> Option<String>;

    fn os(&self) -> Option<String>;

    fn id(&self) -> String;

    fn uptime(&self) -> Option<String>;

    fn ip(&self) -> Vec<String>;

    fn displays(&self) -> Vec<String>;

    fn hostname(&self) -> Option<String>;

    fn machine(&self) -> Option<String>;

    fn kernel(&self) -> Option<String>;

    fn wm(&self) -> Option<String>;

    fn de(&self) -> Option<String>;

    fn shell(&self) -> Option<String>;

    fn cpu(&self) -> Option<String>;

    fn username(&self) -> Option<String>;
}

/// The name that a backend reports when it cannot identify its platform.
pub const UNKNOWN_ID: &'static str = "unknown";

/// A backend with no capabilities: every fact is absent and the platform
/// identifier is the fixed fallback name. This is intended, not a gap.
pub struct IosInfo {}

impl IosInfo {
    pub fn new() -> IosInfo {
        IosInfo {  }
    }
}

impl OSInfo for IosInfo {
    fn sys_font(&self) -> (r: Option<String>)
        ensures
            r is None,
    {
        None
    }

    fn cursor(&self) -> (r: Option<String>)
        ensures
            r is None,
    {
        None
    }

    fn terminal(&self) -> (r: Option<String>)
        ensures
            r is None,
    {
        None
    }

    fn term_font(&self) -> (r: Option<String>)
        ensures
            r is None,
    {
        None
    }

    fn gpus(&self) -> (r: Vec<String>)
        ensures
            r@.len() == 0,
    {
        Vec::new()
    }

    fn memory(&self) -> (r: Option<String>)
        ensures
            r is None,
    {
        None
    }

    fn disks(&self) -> (r: Vec<(String, String)>)
        ensures
            r@.len() == 0,
    {
        Vec::new()
    }

    fn battery(&self) -> (r: Option<String>)
        ensures
            r is None,
    {
        None
    }

    fn locale(&self) -> (r: Option<String>)
        ensures
            r is None,
    {
        None
    }

    fn theme(&self) -> (r: Option<String>)
        ensures
            r is None,
    {
        None
    }

    fn icons(&self) -> (r: Option<String>)
        ensures
            r is None,
    {
        None
    }

    fn os(&self) -> (r: Option<String>)
        ensures
            r is None,
    {
        None
    }

    fn id(&self) -> (r: String)
        ensures
            r@ == UNKNOWN_ID@,
    {
        UNKNOWN_ID.to_owned()
    }

    fn uptime(&self) -> (r: Option<String>)
        ensures
            r is None,
    {
        None
    }

    fn ip(&self) -> (r: Vec<String>)
        ensures
            r@.len() == 0,
    {
        Vec::new()
    }

    fn displays(&self) -> (r: Vec<String>)
        ensures
            r@.len() == 0,
    {
        Vec::new()
    }

    fn hostname(&self) -> (r: Option<String>)
        ensures
            r is None,
    {
        None
    }

    fn machine(&self) -> (r: Option<String>)
        ensures
            r is None,
    {
        None
    }

    fn kernel(&self) -> (r: Option<String>)
        ensures
            r is None,
    {
        None
    }

    fn wm(&self) -> (r: Option<String>)
        ensures
            r is None,
    {
        None
    }

    fn de(&self) -> (r: Option<String>)
        ensures
            r is None,
    {
        None
    }

    fn shell(&self) -> (r: Option<String>)
        ensures
            r is None,
    {
        None
    }

    fn cpu(&self) -> (r: Option<String>)
        ensures
            r is None,
    {
        None
    }

    fn username(&self) -> (r: Option<String>)
        ensures
            r is None,
    {
        None
    }
}

/// The answers of one probing pass, one field per fact.
pub struct Info {
    pub os: Option<String>,
    pub machine: Option<String>,
    pub kernel: Option<String>,
    pub uptime: Option<String>,
    pub username: Option<String>,
    pub hostname: Option<String>,
    pub resolution: Vec<String>,
    pub wm: Option<String>,
    pub de: Option<String>,
    pub shell: Option<String>,
    pub cpu: Option<String>,
    pub font: Option<String>,
    pub cursor: Option<String>,
    pub terminal: Option<String>,
    pub terminal_font: Option<String>,
    pub gpus: Vec<String>,
    pub memory: Option<String>,
    pub disks: Vec<(String, String)>,
    pub battery: Option<String>,
    pub locale: Option<String>,
    pub theme: Option<String>,
    pub icons: Option<String>,
    pub ip: Vec<String>,
    pub id: String,
}

/// A record: a label and a value. An empty label marks a structural row.
pub type Row = (Seq<char>, Seq<char>);

/// The values of a list of string records.
pub open spec fn rows_view(v: Seq<(String, String)>) -> Seq<Row> {
    v.map_values(|r: (String, String)| (r.0@, r.1@))
}

/// The values of a list of strings.
pub open spec fn texts_view(v: Seq<String>) -> Seq<Seq<char>> {
    v.map_values(|s: String| s@)
}

/// The labelled single-valued facts, in display order.
pub open spec fn fact_answers(i: &Info) -> Seq<(Seq<char>, Option<Seq<char>>)> {
    seq![
        ("OS"@, opt_view(i.os)),
        ("Host"@, opt_view(i.machine)),
        ("Kernel"@, opt_view(i.kernel)),
        ("Uptime"@, opt_view(i.uptime)),
        ("Shell"@, opt_view(i.shell)),
        ("WM"@, opt_view(i.wm)),
        ("DE"@, opt_view(i.de)),
        ("CPU"@, opt_view(i.cpu)),
        ("Theme"@, opt_view(i.theme)),
        ("System Font"@, opt_view(i.font)),
        ("Cursor"@, opt_view(i.cursor)),
        ("Terminal"@, opt_view(i.terminal)),
        ("Terminal Font"@, opt_view(i.terminal_font)),
        ("Memory"@, opt_view(i.memory)),
        ("Battery"@, opt_view(i.battery)),
        ("Locale"@, opt_view(i.locale)),
        ("Icon Theme"@, opt_view(i.icons)),
    ]
}

/// The rows of the answers that are present, in order; absent ones leave no row.
pub open spec fn present_rows(s: Seq<(Seq<char>, Option<Seq<char>>)>) -> Seq<Row>
    decreases s.len(),
{
    if s.len() == 0 {
        Seq::empty()
    } else {
        present_rows(s.drop_last()) + match s.last().1 {
            Some(v) => seq![(s.last().0, v)],
            None => Seq::empty(),
        }
    }
}

/// One row per value, labelled `prefix` and its 1-based position.
pub open spec fn numbered_rows(prefix: Seq<char>, vs: Seq<Seq<char>>) -> Seq<Row> {
    Seq::new(vs.len(), |k: int| (prefix + decimal((k + 1) as nat), vs[k]))
}

/// One row per value, each labelled `label`.
pub open spec fn labelled_rows(label: Seq<char>, vs: Seq<Seq<char>>) -> Seq<Row> {
    Seq::new(vs.len(), |k: int| (label, vs[k]))
}

/// `user@host`, with an absent part left empty.
pub open spec fn header_text(i: &Info) -> Seq<char> {
    let u = match opt_view(i.username) {
        Some(u) => u,
        None => Seq::empty(),
    };
    let h = match opt_view(i.hostname) {
        Some(h) => h,
        None => Seq::empty(),
    };
    u.push('@') + h
}

/// The records of a probing pass in display order: the `user@host` title, an
/// underline of one dash per byte of the title, the present facts, then the
/// displays and GPUs numbered from 1, the disks, and the IP addresses.
pub open spec fn records(i: &Info) -> Seq<Row> {
    let y = header_text(i);
    seq![(y, Seq::empty()), (Seq::new(utf8_len(y), |k: int| '-'), Seq::empty())] + present_rows(
        fact_answers(i),
    ) + numbered_rows("Display "@, texts_view(i.resolution@)) + numbered_rows(
        "GPU "@,
        texts_view(i.gpus@),
    ) + rows_view(i.disks@) + labelled_rows("IP"@, texts_view(i.ip@))
}

proof fn lemma_rows_view_push(v: Seq<(String, String)>, r: (String, String))
    ensures
        rows_view(v.push(r)) == rows_view(v).push((r.0@, r.1@)),
{
    assert(rows_view(v.push(r)) =~= rows_view(v).push((r.0@, r.1@)));
}

fn push_answer(
    answers: &mut Vec<(String, Option<String>)>,
    label: &str,
    value: Option<String>,
)
    ensures
        final(answers)@.len() == old(answers)@.len() + 1,
        forall|k: int| 0 <= k < old(answers)@.len() ==> final(answers)@[k] == old(answers)@[k],
        final(answers)@.last().0@ == label@,
        opt_view(final(answers)@.last().1) == opt_view(value),
{
    answers.push((label.to_owned(), value));
}

/// The values of labelled answers.
pub open spec fn answers_view(v: Seq<(String, Option<String>)>) -> Seq<
    (Seq<char>, Option<Seq<char>>),
> {
    v.map_values(|a: (String, Option<String>)| (a.0@, opt_view(a.1)))
}

/// A string of `n` dashes.
fn dashes(n: usize) -> (r: String)
    ensures
        r@ == Seq::new(n as nat, |k: int| '-'),
{
    let mut s = String::new();
    let mut k: usize = 0;
    while k < n
        invariant
            k <= n,
            s@ == Seq::new(k as nat, |j: int| '-'),
        decreases n - k,
    {
        push_char(&mut s, '-');
        k = k + 1;
        proof {
            assert(s@ =~= Seq::new(k as nat, |j: int| '-'));
        }
    }
    s
}

/// Appends one row per value, labelled `prefix` and its 1-based position.
fn push_numbered(out: &mut Vec<(String, String)>, prefix: &str, vs: &Vec<String>)
    requires
        vs@.len() < usize::MAX,
    ensures
        rows_view(final(out)@) == rows_view(old(out)@) + numbered_rows(prefix@, texts_view(vs@)),
{
    let n = vs.len();
    let ghost start = rows_view(out@);
    let ghost nr = numbered_rows(prefix@, texts_view(vs@));
    let mut k: usize = 0;
    while k < n
        invariant
            n == vs@.len(),
            n < usize::MAX,
            k <= n,
            nr == numbered_rows(prefix@, texts_view(vs@)),
            rows_view(out@) == start + nr.subrange(0, k as int),
        decreases n - k,
    {
        let mut label = prefix.to_owned();
        push_decimal(&mut label, k + 1);
        let row = (label, vs[k].clone());
        proof {
            lemma_rows_view_push(out@, row);
            assert(nr.subrange(0, k + 1) =~= nr.subrange(0, k as int).push((row.0@, row.1@)));
        }
        out.push(row);
        k = k + 1;
    }
    proof {
        assert(nr.subrange(0, k as int) =~= nr);
    }
}

/// Appends the given rows.
fn push_rows(out: &mut Vec<(String, String)>, rows: &Vec<(String, String)>)
    ensures
        rows_view(final(out)@) == rows_view(old(out)@) + rows_view(rows@),
{
    let ghost start = rows_view(out@);
    let mut k: usize = 0;
    while k < rows.len()
        invariant
            k <= rows@.len(),
            rows_view(out@) == start + rows_view(rows@).subrange(0, k as int),
        decreases rows@.len() - k,
    {
        let row = (rows[k].0.clone(), rows[k].1.clone());
        proof {
            lemma_rows_view_push(out@, row);
            assert(rows_view(rows@).subrange(0, k + 1) =~= rows_view(rows@).subrange(
                0,
                k as int,
            ).push((row.0@, row.1@)));
        }
        out.push(row);
        k = k + 1;
    }
    proof {
        assert(rows_view(rows@).subrange(0, k as int) =~= rows_view(rows@));
    }
}

/// Appends one row labelled `label` per value.
fn push_labelled(out: &mut Vec<(String, String)>, label: &str, vs: &Vec<String>)
    ensures
        rows_view(final(out)@) == rows_view(old(out)@) + labelled_rows(label@, texts_view(vs@)),
{
    let ghost start = rows_view(out@);
    let ghost lr = labelled_rows(label@, texts_view(vs@));
    let mut k: usize = 0;
    while k < vs.len()
        invariant
            k <= vs@.len(),
            lr == labelled_rows(label@, texts_view(vs@)),
            rows_view(out@) == start + lr.subrange(0, k as int),
        decreases vs@.len() - k,
    {
        let row = (label.to_owned(), vs[k].clone());
        proof {
            lemma_rows_view_push(out@, row);
            assert(lr.subrange(0, k + 1) =~= lr.subrange(0, k as int).push((row.0@, row.1@)));
        }
        out.push(row);
        k = k + 1;
    }
    proof {
        assert(lr.subrange(0, k as int) =~= lr);
    }
}

/// The present answers as rows, in order.
fn push_present(out: &mut Vec<(String, String)>, answers: &Vec<(String, Option<String>)>)
    ensures
        rows_view(final(out)@) == rows_view(old(out)@) + present_rows(answers_view(answers@)),
{
    let ghost start = rows_view(out@);
    let ghost av = answers_view(answers@);
    let mut k: usize = 0;
    while k < answers.len()
        invariant
            k <= answers@.len(),
            av == answers_view(answers@),
            rows_view(out@) == start + present_rows(av.subrange(0, k as int)),
        decreases answers@.len() - k,
    {
        proof {
            assert(av.subrange(0, k + 1).drop_last() =~= av.subrange(0, k as int));
        }
        match &answers[k].1 {
            Some(v) => {
                let row = (answers[k].0.clone(), v.clone());
                proof {
                    lemma_rows_view_push(out@, row);
                    assert(start + present_rows(av.subrange(0, k + 1)) =~= (start + present_rows(
                        av.subrange(0, k as int),
                    )).push((row.0@, row.1@)));
                }
                out.push(row);
            },
            None => {
                proof {
                    assert(start + present_rows(av.subrange(0, k + 1)) =~= start + present_rows(
                        av.subrange(0, k as int),
                    ));
                }
            },
        }
        k = k + 1;
    }
    proof {
        assert(av.subrange(0, k as int) =~= av);
    }
}

/// The `user@host` title of a probing pass.
fn header(username: &Option<String>, hostname: &Option<String>) -> (r: String)
    ensures
        r@ == (match opt_view(*username) {
            Some(u) => u,
            None => Seq::empty(),
        }).push('@') + (match opt_view(*hostname) {
            Some(h) => h,
            None => Seq::empty(),
        }),
{
    let mut y = match username {
        Some(u) => u.clone(),
        None => String::new(),
    };
    push_char(&mut y, '@');
    match hostname {
        Some(h) => push_str(&mut y, h.as_str()),
        None => {},
    }
    y
}

/// Relies on crossterm's `Stylize::on` and its `Display`: `text` on the
/// background of ANSI colour `code`. What is written depends on the
/// environment (`NO_COLOR`), so nothing is stated of it.
#[verifier::external_body]
fn swatch(text: &str, code: u8) -> String {
    text.on(crossterm::style::Color::AnsiValue(code)).to_string()
}

/// The text of one colour swatch: three spaces.
pub const SWATCH: &'static str = "   ";

/// Two rows of colour swatches: ANSI colours 0 to 7, then 8 to 15.
pub fn palette() -> (String, String) {
    let mut dark = String::new();
    let mut light = String::new();
    let mut code: u8 = 0;
    while code < 8
        decreases 8 - code,
    {
        let d = swatch(SWATCH, code);
        push_str(&mut dark, d.as_str());
        let l = swatch(SWATCH, code + 8);
        push_str(&mut light, l.as_str());
        code = code + 1;
    }
    (dark, light)
}

impl Info {
    /// The records of this pass in display order (see `records`). The title
    /// must have a byte length that fits in `usize`.
    pub fn rows(self) -> (r: Vec<(String, String)>)
        requires
            utf8_len(header_text(&self)) <= usize::MAX,
            self.resolution@.len() < usize::MAX,
            self.gpus@.len() < usize::MAX,
        ensures
            rows_view(r@) == records(&self),
    {
        let y = header(&self.username, &self.hostname);
        let yc = to_chars(y.as_str());
        let n = match utf8_length(&yc) {
            Some(n) => n,
            None => 0,
        };
        let line = dashes(n);
        let mut out: Vec<(String, String)> = Vec::new();
        out.push((y, String::new()));
        out.push((line, String::new()));
        let ghost head = rows_view(out@);
        proof {
            assert(head =~= seq![
                (header_text(&self), Seq::<char>::empty()),
                (Seq::new(utf8_len(header_text(&self)), |k: int| '-'), Seq::<char>::empty()),
            ]);
        }
        let mut answers: Vec<(String, Option<String>)> = Vec::new();
        push_answer(&mut answers, "OS", self.os);
        push_answer(&mut answers, "Host", self.machine);
        push_answer(&mut answers, "Kernel", self.kernel);
        push_answer(&mut answers, "Uptime", self.uptime);
        push_answer(&mut answers, "Shell", self.shell);
        push_answer(&mut answers, "WM", self.wm);
        push_answer(&mut answers, "DE", self.de);
        push_answer(&mut answers, "CPU", self.cpu);
        push_answer(&mut answers, "Theme", self.theme);
        push_answer(&mut answers, "System Font", self.font);
        push_answer(&mut answers, "Cursor", self.cursor);
        push_answer(&mut answers, "Terminal", self.terminal);
        push_answer(&mut answers, "Terminal Font", self.terminal_font);
        push_answer(&mut answers, "Memory", self.memory);
        push_answer(&mut answers, "Battery", self.battery);
        push_answer(&mut answers, "Locale", self.locale);
        push_answer(&mut answers, "Icon Theme", self.icons);
        proof {
            assert(answers_view(answers@) =~= fact_answers(&self));
        }
        push_present(&mut out, &answers);
        push_numbered(&mut out, "Display ", &self.resolution);
        push_numbered(&mut out, "GPU ", &self.gpus);
        push_rows(&mut out, &self.disks);
        push_labelled(&mut out, "IP", &self.ip);
        proof {
            assert(rows_view(out@) =~= records(&self));
        }
        out
    }

    /// The records of this pass (see `rows`) followed by two structural rows
    /// that hold the given swatch lines, `dark` first.
    pub fn rows_with_palette(self, dark: String, light: String) -> (r: Vec<(String, String)>)
        requires
            utf8_len(header_text(&self)) <= usize::MAX,
            self.resolution@.len() < usize::MAX,
            self.gpus@.len() < usize::MAX,
        ensures
            rows_view(r@) == records(&self) + seq![
                (Seq::<char>::empty(), dark@),
                (Seq::<char>::empty(), light@),
            ],
    {
        let ghost rec = records(&self);
        let mut res = self.rows();
        let ghost before = res@;
        let d = (String::new(), dark);
        let l = (String::new(), light);
        proof {
            lemma_rows_view_push(before, d);
            lemma_rows_view_push(before.push(d), l);
        }
        res.push(d);
        res.push(l);
        proof {
            assert(rows_view(res@) =~= rec + seq![
                (Seq::<char>::empty(), d.1@),
                (Seq::<char>::empty(), l.1@),
            ]);
        }
        res
    }

    /// The records of this pass (see `rows`) followed by two structural rows
    /// of colour swatches (see `palette`).
    pub fn as_vec(self) -> (r: Vec<(String, String)>)
        requires
            utf8_len(header_text(&self)) <= usize::MAX,
            self.resolution@.len() < usize::MAX,
            self.gpus@.len() < usize::MAX,
        ensures
            r@.len() == records(&self).len() + 2,
            rows_view(r@).subrange(0, records(&self).len() as int) == records(&self),
            r@[r@.len() - 2].0@.len() == 0,
            r@[r@.len() - 1].0@.len() == 0,
    {
        let ghost rec = records(&self);
        let (dark, light) = palette();
        let r = self.rows_with_palette(dark, light);
        proof {
            assert(rows_view(r@).len() == r@.len());
            assert(r@.len() == rec.len() + 2);
            assert(rows_view(r@).subrange(0, rec.len() as int) =~= rec);
            assert(rows_view(r@)[r@.len() - 2] == (r@[r@.len() - 2].0@, r@[r@.len() - 2].1@));
            assert(rows_view(r@)[r@.len() - 1] == (r@[r@.len() - 1].0@, r@[r@.len() - 1].1@));
        }
        r
    }
}

/// The records are a function of the answers alone: two passes that got the
/// same answers list the same records in the same order, however the probes
/// were scheduled.
pub proof fn lemma_records_deterministic(a: &Info, b: &Info)
    requires
        fact_answers(a) == fact_answers(b),
        opt_view(a.username) == opt_view(b.username),
        opt_view(a.hostname) == opt_view(b.hostname),
        texts_view(a.resolution@) == texts_view(b.resolution@),
        texts_view(a.gpus@) == texts_view(b.gpus@),
        rows_view(a.disks@) == rows_view(b.disks@),
        texts_view(a.ip@) == texts_view(b.ip@),
    ensures
        records(a) == records(b),
{
}

/// Every row built from answers comes from a present answer and carries its
/// value; an absent answer leaves no row: with distinct labels, its label
/// does not occur among the rows.
pub proof fn lemma_absent_omitted(s: Seq<(Seq<char>, Option<Seq<char>>)>)
    ensures
        forall|k: int|
            0 <= k < present_rows(s).len() ==> exists|m: int|
                0 <= m < s.len() && s[m].0 == (#[trigger] present_rows(s)[k]).0 && s[m].1 == Some(
                    present_rows(s)[k].1,
                ),
        forall|m: int, k: int|
            0 <= m < s.len() && s[m].1 is None && 0 <= k < present_rows(s).len() && (forall|
                a: int,
                b: int,
            | 0 <= a < b < s.len() ==> s[a].0 != s[b].0) ==> (#[trigger] present_rows(s)[k]).0
                != #[trigger] s[m].0,
    decreases s.len(),
{
    if s.len() > 0 {
        let t = s.drop_last();
        lemma_absent_omitted(t);
        let extra = match s.last().1 {
            Some(v) => seq![(s.last().0, v)],
            None => Seq::<Row>::empty(),
        };
        assert(present_rows(s) == present_rows(t) + extra);
        assert forall|k: int| 0 <= k < present_rows(s).len() implies exists|m: int|
            0 <= m < s.len() && s[m].0 == (#[trigger] present_rows(s)[k]).0 && s[m].1 == Some(
                present_rows(s)[k].1,
            ) by {
            if k < present_rows(t).len() {
                assert(present_rows(s)[k] == present_rows(t)[k]);
                let m = choose|m: int|
                    0 <= m < t.len() && t[m].0 == (#[trigger] present_rows(t)[k]).0 && t[m].1
                        == Some(present_rows(t)[k].1);
                assert(s[m] == t[m]);
            } else {
                assert(s[s.len() - 1].1 == Some(present_rows(s)[k].1));
            }
        }
        assert forall|m: int, k: int|
            0 <= m < s.len() && s[m].1 is None && 0 <= k < present_rows(s).len() && (forall|
                a: int,
                b: int,
            | 0 <= a < b < s.len() ==> s[a].0 != s[b].0) implies (#[trigger] present_rows(
            s,
        )[k]).0 != #[trigger] s[m].0 by {
            if k < present_rows(t).len() {
                assert(present_rows(s)[k] == present_rows(t)[k]);
                let w = choose|w: int|
                    0 <= w < t.len() && t[w].0 == (#[trigger] present_rows(t)[k]).0 && t[w].1
                        == Some(present_rows(t)[k].1);
                assert(s[w] == t[w]);
                assert(w != m);
            } else {
                assert(present_rows(s)[k].0 == s[s.len() - 1].0);
                assert(m != s.len() - 1);
            }
        }
    }
}

/// A fact that a probe left absent has no row among the facts: no present
/// fact row carries its label.
pub proof fn lemma_absent_fact_has_no_row(i: &Info, m: int)
    requires
        0 <= m < fact_answers(i).len(),
        fact_answers(i)[m].1 is None,
    ensures
        forall|k: int|
            0 <= k < present_rows(fact_answers(i)).len() ==> (#[trigger] present_rows(
                fact_answers(i),
            )[k]).0 != fact_answers(i)[m].0,
{
    let s = fact_answers(i);
    reveal_strlit("OS");
    reveal_strlit("Host");
    reveal_strlit("Kernel");
    reveal_strlit("Uptime");
    reveal_strlit("Shell");
    reveal_strlit("WM");
    reveal_strlit("DE");
    reveal_strlit("CPU");
    reveal_strlit("Theme");
    reveal_strlit("System Font");
    reveal_strlit("Cursor");
    reveal_strlit("Terminal");
    reveal_strlit("Terminal Font");
    reveal_strlit("Memory");
    reveal_strlit("Battery");
    reveal_strlit("Locale");
    reveal_strlit("Icon Theme");
    assert forall|x: int, y: int| 0 <= x < y < s.len() implies s[x].0 != s[y].0 by {
        assert(s[x].0.len() != s[y].0.len() || s[x].0[0] != s[y].0[0] || s[x].0[1] != s[y].0[1]
            || s[x].0[s[x].0.len() - 1] != s[y].0[s[y].0.len() - 1]);
    }
    lemma_absent_omitted(s);
    assert forall|k: int| 0 <= k < present_rows(s).len() implies (#[trigger] present_rows(
        s,
    )[k]).0 != s[m].0 by {
        assert(present_rows(s)[k].0 != s[m].0);
    }
}

proof fn lemma_present_row_exists(s: Seq<(Seq<char>, Option<Seq<char>>)>, m: int, v: Seq<char>)
    requires
        0 <= m < s.len(),
        s[m].1 == Some(v),
    ensures
        exists|k: int| 0 <= k < present_rows(s).len() && #[trigger] present_rows(s)[k] == (s[m].0, v),
    decreases s.len(),
{
    let t = s.drop_last();
    if m == s.len() - 1 {
        let k = present_rows(t).len() as int;
        assert(present_rows(s)[k] == (s[m].0, v));
    } else {
        lemma_present_row_exists(t, m, v);
        let k = choose|k: int| 0 <= k < present_rows(t).len() && #[trigger] present_rows(t)[k] == (t[m].0, v);
        assert(present_rows(s)[k] == present_rows(t)[k]);
    }
}

/// A fact that a probe answered has its row among the facts: its label with
/// the answer as value.
pub proof fn lemma_present_fact_has_row(i: &Info, m: int, v: Seq<char>)
    requires
        0 <= m < fact_answers(i).len(),
        fact_answers(i)[m].1 == Some(v),
    ensures
        exists|k: int|
            0 <= k < present_rows(fact_answers(i)).len() && #[trigger] present_rows(
                fact_answers(i),
            )[k] == (fact_answers(i)[m].0, v),
{
    lemma_present_row_exists(fact_answers(i), m, v);
}

} // verus!

//! Which video encoders the bundled ffmpeg offers, and which one to use.

use vstd::prelude::*;

use crate::plan::Codec;
use crate::strs::{chars_of, text_eq, texts};
use crate::words::{first_word, is_space, lines, second_word, skip_space, utf8_len, word_end};

verus! {

/// A concrete ffmpeg encoder.
#[derive(Clone, Debug, PartialEq, Eq)]
pub struct Encoder {
    pub name: &'static str,
    pub hardware: bool,
}

/// Preference order per codec; first available wins. Hardware first
/// (fast, licence handled by the OS vendor), software as fallback.
pub open spec fn preference(codec: Codec) -> Seq<(Seq<char>, bool)> {
    match codec {
        Codec::H264 => seq![
            ("h264_videotoolbox"@, true),
            ("h264_nvenc"@, true),
            ("h264_qsv"@, true),
            ("h264_amf"@, true),
            ("h264_mf"@, true),
            ("libx264"@, false),
            ("libopenh264"@, false),
        ],
        Codec::Hevc => seq![
            ("hevc_videotoolbox"@, true),
            ("hevc_nvenc"@, true),
            ("hevc_qsv"@, true),
            ("hevc_amf"@, true),
            ("hevc_mf"@, true),
            ("libx265"@, false),
        ],
    }
}

pub open spec fn encoder_view(e: Encoder) -> (Seq<char>, bool) {
    (e.name@, e.hardware)
}

fn encoder(name: &'static str, hardware: bool) -> (e: Encoder)
    ensures
        e.name == name,
        e.hardware == hardware,
{
    Encoder { name, hardware }
}

fn preferences(codec: Codec) -> (v: Vec<Encoder>)
    ensures
        v@.map_values(|e: Encoder| encoder_view(e)) == preference(codec),
{
    let v = match codec {
        Codec::H264 => vec![
            encoder("h264_videotoolbox", true),
            encoder("h264_nvenc", true),
            encoder("h264_qsv", true),
            encoder("h264_amf", true),
            encoder("h264_mf", true),
            encoder("libx264", false),
            encoder("libopenh264", false),
        ],
        Codec::Hevc => vec![
            encoder("hevc_videotoolbox", true),
            encoder("hevc_nvenc", true),
            encoder("hevc_qsv", true),
            encoder("hevc_amf", true),
            encoder("hevc_mf", true),
            encoder("libx265", false),
        ],
    };
    proof {
        assert(v@.map_values(|e: Encoder| encoder_view(e)) =~= preference(codec));
    }
    v
}

/// The set of encoder names an ffmpeg binary reports.
#[derive(Clone, Debug, PartialEq, Eq)]
pub struct EncoderCatalog {
    names: Vec<String>,
}

impl View for EncoderCatalog {
    type V = Seq<Seq<char>>;

    closed spec fn view(&self) -> Seq<Seq<char>> {
        texts(self.names@)
    }
}

impl Default for EncoderCatalog {
    fn default() -> (c: EncoderCatalog)
        ensures
            c@ == Seq::<Seq<char>>::empty(),
    {
        let c = EncoderCatalog { names: Vec::new() };
        proof {
            assert(c@ =~= Seq::<Seq<char>>::empty());
        }
        c
    }
}

/// The encoder named on one line of the list: the second word, when the
/// first (the flags) starts with `V` and is at least six bytes long.
pub open spec fn listed_name(line: Seq<char>) -> Option<Seq<char>> {
    match first_word(line) {
        Some(flags) => if flags[0] == 'V' && utf8_len(flags) >= 6 {
            second_word(line)
        } else {
            None
        },
        None => None,
    }
}

/// Whether a line is the dashed rule that starts the list.
pub open spec fn is_rule(line: Seq<char>) -> bool {
    let rest = line.subrange(skip_space(line, 0), line.len() as int);
    rest.len() >= 6 && rest.subrange(0, 6) == "------"@
}

/// The names listed in `lines`, given whether the rule has been seen
/// before them.
pub open spec fn listed_names(lines: Seq<Seq<char>>, in_list: bool) -> Seq<Seq<char>>
    decreases lines.len(),
{
    if lines.len() == 0 {
        Seq::empty()
    } else {
        let line = lines[0];
        let rest = lines.drop_first();
        if is_rule(line) {
            listed_names(rest, true)
        } else if !in_list {
            listed_names(rest, false)
        } else {
            match listed_name(line) {
                Some(n) => seq![n] + listed_names(rest, true),
                None => listed_names(rest, true),
            }
        }
    }
}

/// Whether `name` is among `names`.
pub open spec fn lists(names: Seq<Seq<char>>, name: Seq<char>) -> bool {
    exists|i: int| 0 <= i < names.len() && names[i] == name
}

/// The first encoder of `prefs` with the given hardware flag that `names`
/// lists.
pub open spec fn first_listed(prefs: Seq<(Seq<char>, bool)>, names: Seq<Seq<char>>, hw: bool) -> Option<(Seq<char>, bool)>
    decreases prefs.len(),
{
    if prefs.len() == 0 {
        None
    } else if prefs[0].1 == hw && lists(names, prefs[0].0) {
        Some(prefs[0])
    } else {
        first_listed(prefs.drop_first(), names, hw)
    }
}

/// What `pick` chooses: the first listed encoder of the preferred kind,
/// else the first listed one of the other kind.
pub open spec fn pick_spec(names: Seq<Seq<char>>, codec: Codec, prefer_hardware: bool) -> Option<(Seq<char>, bool)> {
    let prefs = preference(codec);
    match first_listed(prefs, names, prefer_hardware) {
        Some(e) => Some(e),
        None => first_listed(prefs, names, !prefer_hardware),
    }
}

impl EncoderCatalog {
    /// Parses `ffmpeg -encoders` output. Lines look like
    /// ` V....D libx264              libx264 H.264 / AVC ...`.
    pub fn parse(text: &str) -> (c: EncoderCatalog)
        ensures
            c@ == listed_names(lines(text@), false),
    {
        let all = crate::words::split_lines(text);
        let mut names: Vec<String> = Vec::new();
        let mut in_list = false;
        let mut k: usize = 0;
        proof {
            assert(lines(text@).len() == all@.len());
            assert(lines(text@).subrange(0, all@.len() as int) =~= lines(text@));
            assert(texts(names@) =~= Seq::<Seq<char>>::empty());
            assert(Seq::<Seq<char>>::empty() + lines(text@) =~= lines(text@));
        }
        while k < all.len()
            invariant
                k <= all@.len(),
                all@.map_values(|l: Vec<char>| l@) == lines(text@),
                listed_names(lines(text@), false) == texts(names@) + listed_names(lines(text@).subrange(k as int, all@.len() as int), in_list),
            decreases all@.len() - k,
        {
            let line = &all[k];
            let ghost ls = lines(text@);
            proof {
                assert(ls[k as int] == line@);
                assert(ls.subrange(k as int, all@.len() as int).drop_first() =~= ls.subrange(k + 1, all@.len() as int));
                assert(ls.subrange(k as int, all@.len() as int)[0] == line@);
            }
            proof {
                crate::words::lemma_skip_space(line@, 0);
            }
            let start = crate::words::skip_space_exec(line, 0);
            let mut rule = false;
            if line.len() - start >= 6 {
                rule = line[start] == '-' && line[start + 1] == '-' && line[start + 2] == '-'
                    && line[start + 3] == '-' && line[start + 4] == '-' && line[start + 5] == '-';
                proof {
                    let rest = line@.subrange(start as int, line@.len() as int);
                    reveal_strlit("------");
                    if rule {
                        assert(rest.subrange(0, 6) =~= "------"@);
                    } else {
                        assert(rest.subrange(0, 6) != "------"@) by {
                            if rest.subrange(0, 6) == "------"@ {
                                assert(rest.subrange(0, 6)[0] == '-');
                                assert(rest.subrange(0, 6)[1] == '-');
                                assert(rest.subrange(0, 6)[2] == '-');
                                assert(rest.subrange(0, 6)[3] == '-');
                                assert(rest.subrange(0, 6)[4] == '-');
                                assert(rest.subrange(0, 6)[5] == '-');
                            }
                        }
                    }
                }
            }
            if rule {
                in_list = true;
            } else if in_list {
                match crate::words::listed_word(line) {
                    Some(n) => {
                        let ghost before = texts(names@);
                        crate::strs::push_string(&mut names, n);
                        proof {
                            assert(texts(names@) == before.push(listed_name(line@)->0));
                        }
                    },
                    None => {},
                }
            }
            k = k + 1;
        }
        proof {
            assert(lines(text@).subrange(all@.len() as int, all@.len() as int) =~= Seq::<Seq<char>>::empty());
            assert(texts(names@) + Seq::<Seq<char>>::empty() =~= texts(names@));
        }
        EncoderCatalog { names }
    }

    /// A catalog from explicit names (tests, overrides).
    pub fn from_names(names: Vec<String>) -> (c: EncoderCatalog)
        ensures
            c@ == texts(names@),
    {
        EncoderCatalog { names }
    }

    pub fn has(&self, name: &str) -> (b: bool)
        ensures
            b == lists(self@, name@),
    {
        let mut i: usize = 0;
        while i < self.names.len()
            invariant
                i <= self.names@.len(),
                forall|j: int| 0 <= j < i ==> #[trigger] self.names@[j]@ != name@,
            decreases self.names@.len() - i,
        {
            if text_eq(self.names[i].as_str(), name) {
                proof {
                    assert(self@[i as int] == name@);
                }
                return true;
            }
            i = i + 1;
        }
        proof {
            if lists(self@, name@) {
                let j = choose|j: int| 0 <= j < self@.len() && self@[j] == name@;
                assert(self.names@[j]@ == name@);
            }
        }
        false
    }

    fn first_pass(&self, prefs: &Vec<Encoder>, hw: bool) -> (r: Option<Encoder>)
        ensures
            match first_listed(prefs@.map_values(|e: Encoder| encoder_view(e)), self@, hw) {
                None => r is None,
                Some(x) => r matches Some(e) && encoder_view(e) == x,
            },
    {
        let ghost all = prefs@.map_values(|e: Encoder| encoder_view(e));
        let mut i: usize = 0;
        proof {
            assert(all.subrange(0, all.len() as int) =~= all);
        }
        while i < prefs.len()
            invariant
                i <= prefs@.len(),
                all == prefs@.map_values(|e: Encoder| encoder_view(e)),
                first_listed(all, self@, hw) == first_listed(all.subrange(i as int, all.len() as int), self@, hw),
            decreases prefs@.len() - i,
        {
            let e = &prefs[i];
            let ghost rest = all.subrange(i as int, all.len() as int);
            proof {
                assert(rest[0] == encoder_view(*e));
                assert(rest.drop_first() =~= all.subrange(i + 1, all.len() as int));
            }
            if e.hardware == hw && self.has(e.name) {
                return Some(Encoder { name: e.name, hardware: e.hardware });
            }
            i = i + 1;
        }
        proof {
            assert(all.subrange(prefs@.len() as int, all.len() as int) =~= Seq::<(Seq<char>, bool)>::empty());
        }
        None
    }

    /// Best listed encoder for `codec`, honouring `prefer_hardware`
    /// (no test encodes; see [`EncoderCatalog::pick_verified`]).
    pub fn pick(&self, codec: Codec, prefer_hardware: bool) -> (r: Option<Encoder>)
        ensures
            match pick_spec(self@, codec, prefer_hardware) {
                None => r is None,
                Some(x) => r matches Some(e) && encoder_view(e) == x,
            },
    {
        let prefs = preferences(codec);
        match self.first_pass(&prefs, prefer_hardware) {
            Some(e) => Some(e),
            None => self.first_pass(&prefs, !prefer_hardware),
        }
    }

    /// Best listed encoder for `codec` that `works` accepts, honouring
    /// `prefer_hardware`. Listing is not enough for hardware encoders: the
    /// Windows builds list NVENC, QSV and AMF whatever GPU is present, so
    /// the exporter passes a test encode as `works`. Listed hardware
    /// encoders are tested in preference order and the first accepted one
    /// is taken (see `hardware_tried`); software encoders are taken as
    /// listed.
    pub fn pick_verified<F: FnMut(&Encoder) -> bool>(&self, codec: Codec, prefer_hardware: bool, works: F) -> (r: Option<Encoder>)
        requires
            forall|e: &Encoder| call_requires(works, (e,)),
        ensures
            chosen(r, works, codec, self@, prefer_hardware),
    {
        let mut test = works;
        let prefs = preferences(codec);
        let ghost all = prefs@.map_values(|e: Encoder| encoder_view(e));
        let ghost n = all.len() as int;
        let mut pass: usize = 0;
        while pass < 2
            invariant
                pass <= 2,
                test == works,
                all == prefs@.map_values(|e: Encoder| encoder_view(e)),
                all == preference(codec),
                n == all.len(),
                forall|e: &Encoder| call_requires(works, (e,)),
                pass >= 1 && !prefer_hardware ==> first_listed(all, self@, false) is None,
                pass >= 1 && prefer_hardware ==> hardware_tried(works, all, self@, n),
                pass >= 2 ==> first_listed(all, self@, false) is None,
                pass >= 2 ==> hardware_tried(works, all, self@, n),
            decreases 2 - pass,
        {
            let hw = if pass == 0 { prefer_hardware } else { !prefer_hardware };
            let mut i: usize = 0;
            proof {
                assert(all.subrange(0, all.len() as int) =~= all);
            }
            while i < prefs.len()
                invariant
                    i <= prefs@.len(),
                    test == works,
                    all == prefs@.map_values(|e: Encoder| encoder_view(e)),
                    all == preference(codec),
                    n == all.len(),
                    forall|e: &Encoder| call_requires(works, (e,)),
                    pass < 2,
                    hw == (if pass == 0 { prefer_hardware } else { !prefer_hardware }),
                    pass >= 1 && !prefer_hardware ==> first_listed(all, self@, false) is None,
                    pass >= 1 && prefer_hardware ==> hardware_tried(works, all, self@, n),
                    !hw ==> first_listed(all, self@, false) == first_listed(all.subrange(i as int, all.len() as int), self@, false),
                    hw ==> hardware_tried(works, all, self@, i as int),
                decreases prefs@.len() - i,
            {
                let e = &prefs[i];
                let ghost rest = all.subrange(i as int, all.len() as int);
                proof {
                    assert(rest[0] == encoder_view(*e));
                    assert(rest.drop_first() =~= all.subrange(i + 1, all.len() as int));
                    assert(all[i as int] == encoder_view(*e));
                }
                if e.hardware == hw && self.has(e.name) {
                    if !e.hardware {
                        return Some(Encoder { name: e.name, hardware: e.hardware });
                    }
                    let ok = test(e);
                    if ok {
                        let r = Encoder { name: e.name, hardware: e.hardware };
                        proof {
                            assert(r == *e);
                            assert(0 <= i < n && all[i as int] == encoder_view(r) && hardware_tried(works, all, self@, i as int));
                        }
                        return Some(r);
                    }
                    proof {
                        assert(rejected(works, all[i as int]));
                    }
                }
                proof {
                    if hw {
                        assert forall|j: int| 0 <= j < i + 1 && #[trigger] all[j].1 && lists(self@, all[j].0) implies rejected(
                            works,
                            all[j],
                        ) by {
                            if j < i {
                                assert(0 <= j < i && all[j].1 && lists(self@, all[j].0));
                            }
                        }
                    }
                }
                i = i + 1;
            }
            proof {
                assert(all.subrange(prefs@.len() as int, all.len() as int) =~= Seq::<(Seq<char>, bool)>::empty());
            }
            pass = pass + 1;
        }
        None
    }
}

/// Whether `r` is a right choice of encoder for `codec` on a catalog
/// listing `names`: listed hardware encoders are
/// tested in preference order and the first accepted one is taken, software
/// encoders are taken as listed, and the kind preferred is tried first.
pub open spec fn chosen<F: FnMut(&Encoder) -> bool>(
    r: Option<Encoder>,
    works: F,
    codec: Codec,
    names: Seq<Seq<char>>,
    prefer_hardware: bool,
) -> bool {
    let prefs = preference(codec);
    let all_tried = hardware_tried(works, prefs, names, prefs.len() as int);
    match r {
        None => first_listed(prefs, names, false) is None && all_tried,
        Some(e) => {
            &&& lists(names, e.name@)
            &&& prefs.contains(encoder_view(e))
            &&& (!e.hardware ==> first_listed(prefs, names, false) == Some(encoder_view(e)))
            &&& (!e.hardware && prefer_hardware ==> all_tried)
            &&& (e.hardware ==> call_ensures(works, (&e,), true) && exists|k: int|
                0 <= k < prefs.len() && prefs[k] == encoder_view(e) && hardware_tried(works, prefs, names, k))
            &&& (e.hardware && !prefer_hardware ==> first_listed(prefs, names, false) is None)
        },
    }
}

/// Whether the test encode may have refused an encoder of this name and
/// kind.
pub open spec fn rejected<F: FnMut(&Encoder) -> bool>(works: F, x: (Seq<char>, bool)) -> bool {
    exists|e: Encoder| encoder_view(e) == x && call_ensures(works, (&e,), false)
}

/// Every listed hardware encoder among the first `k` entries of `prefs`
/// was tested and refused.
pub open spec fn hardware_tried<F: FnMut(&Encoder) -> bool>(
    works: F,
    prefs: Seq<(Seq<char>, bool)>,
    names: Seq<Seq<char>>,
    k: int,
) -> bool {
    forall|j: int| 0 <= j < k && #[trigger] prefs[j].1 && lists(names, prefs[j].0) ==> rejected(works, prefs[j])
}

/// Where the catalog lists none of the encoders known for `codec`, the one
/// right choice is no encoder at all, whatever the test encode answers: an
/// export of that codec fails before ffmpeg starts.
pub proof fn law_unlisted_codec_has_no_encoder<F: FnMut(&Encoder) -> bool>(
    works: F,
    codec: Codec,
    names: Seq<Seq<char>>,
    prefer_hardware: bool,
    r: Option<Encoder>,
)
    requires
        forall|k: int| 0 <= k < preference(codec).len() ==> !lists(names, #[trigger] preference(codec)[k].0),
    ensures
        chosen(r, works, codec, names, prefer_hardware) <==> r is None,
{
    let prefs = preference(codec);
    lemma_none_listed(prefs, names, false);
    if let Some(e) = r {
        if prefs.contains(encoder_view(e)) {
            let k = choose|k: int| 0 <= k < prefs.len() && prefs[k] == encoder_view(e);
            assert(!lists(names, prefs[k].0));
        }
    }
}

proof fn lemma_none_listed(prefs: Seq<(Seq<char>, bool)>, names: Seq<Seq<char>>, hw: bool)
    requires
        forall|k: int| 0 <= k < prefs.len() ==> !lists(names, #[trigger] prefs[k].0),
    ensures
        first_listed(prefs, names, hw) is None,
    decreases prefs.len(),
{
    if prefs.len() > 0 {
        assert forall|k: int| 0 <= k < prefs.drop_first().len() implies !lists(names, #[trigger] prefs.drop_first()[k].0) by {
            assert(prefs.drop_first()[k] == prefs[k + 1]);
        }
        lemma_none_listed(prefs.drop_first(), names, hw);
    }
}

/// Among software H.264 encoders `libx264` comes before the baseline-only
/// `libopenh264`: on a catalog that lists `libx264`, the software choice
/// is `libx264`, and so is `pick`'s answer unless a listed hardware encoder
/// is preferred; `libopenh264` is taken only where `libx264` is missing.
pub proof fn law_libx264_before_libopenh264(names: Seq<Seq<char>>, prefer_hardware: bool)
    ensures
        lists(names, "libx264"@) ==> first_listed(preference(Codec::H264), names, false) == Some(("libx264"@, false)),
        lists(names, "libx264"@) && (!prefer_hardware || first_listed(preference(Codec::H264), names, true) is None)
            ==> pick_spec(names, Codec::H264, prefer_hardware) == Some(("libx264"@, false)),
        !lists(names, "libx264"@) && lists(names, "libopenh264"@) ==> first_listed(
            preference(Codec::H264),
            names,
            false,
        ) == Some(("libopenh264"@, false)),
{
    let prefs = preference(Codec::H264);
    reveal_with_fuel(first_listed, 8);
    assert(prefs.drop_first().drop_first().drop_first().drop_first().drop_first() =~= seq![
        ("libx264"@, false),
        ("libopenh264"@, false),
    ]);
    assert(seq![("libx264"@, false), ("libopenh264"@, false)].drop_first() =~= seq![("libopenh264"@, false)]);
    assert(seq![("libopenh264"@, false)].drop_first() =~= Seq::<(Seq<char>, bool)>::empty());
}

} // verus!

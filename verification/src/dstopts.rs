//! The IPv6 destination options header.
use vstd::prelude::*;
use vstd::utf8::{encode_utf8, is_ascii_chars};

verus! {

/// The options of a packet: what follows the header, and the options
/// themselves.
#[derive(Debug)]
pub struct DstOpts {
    pub next: u8,
    pub options: Vec<Opt>,
}

#[derive(Debug)]
pub enum Opt {
    /// A single byte of padding.
    Pad0(u8),
    Str(StrOpt),
}

/// An option with a text: its type, the length of the text, and the text.
#[derive(Debug)]
pub struct StrOpt {
    pub typ: u8,
    pub content: String,
}

/// The type of an option that pads.
pub const PAD: u8 = 0x1;

/// The type of an option that carries a text.
pub const TEXT: u8 = 0x1e;

impl StrOpt {
    /// The option that pads with `n` bytes in all.
    pub open spec fn is_pad(self, n: u8) -> bool {
        &&& n >= 2
        &&& self.typ == PAD
        &&& self.content@ == Seq::new((n - 2) as nat, |i: int| '\0')
    }

    /// The option that carries `s`.
    pub open spec fn is_text(self, s: Seq<char>) -> bool {
        self.typ == TEXT && self.content@ == s
    }

    /// How many bytes the option takes up in a packet.
    pub open spec fn spec_wire_size(self) -> nat {
        2 + encode_utf8(self.content@).len()
    }

    /// How many bytes the option takes up in a packet.
    pub fn wire_size(&self) -> (size: usize)
        requires
            self.spec_wire_size() <= usize::MAX,
        ensures
            size == self.spec_wire_size(),
    {
        2 + self.content.as_str().len()
    }

    /// An option that pads with `n` bytes in all.
    pub fn pad(n: u8) -> (opt: StrOpt)
        requires
            n >= 2,
        ensures
            opt.is_pad(n),
            opt.spec_wire_size() == n,
    {
        let mut content = String::new();
        proof {
            reveal_strlit("\0");
        }
        let mut i: u8 = 2;
        while i < n
            invariant
                2 <= i <= n,
                "\0"@ =~= seq!['\0'],
                content@ =~= Seq::new((i - 2) as nat, |i: int| '\0'),
            decreases n - i,
        {
            content.append("\0");
            i = i + 1;
        }
        let opt = StrOpt { typ: PAD, content };
        proof {
            lemma_pad_size(opt, n);
        }
        opt
    }

    /// An option that carries `s`.
    pub fn text(s: &str) -> (opt: StrOpt)
        ensures
            opt.is_text(s@),
    {
        StrOpt { typ: TEXT, content: s.to_owned() }
    }
}

proof fn lemma_pad_size(opt: StrOpt, n: u8)
    requires
        opt.is_pad(n),
    ensures
        opt.spec_wire_size() == n,
{
    assert(is_ascii_chars(opt.content@));
    vstd::utf8::is_ascii_chars_encode_utf8(opt.content@);
}

impl Opt {
    /// Whether the option fills a gap of `n` bytes: a single byte of padding,
    /// or an option that pads with `n` bytes in all.
    pub open spec fn fills(self, n: u8) -> bool {
        match self {
            Opt::Pad0(_) => n == 1,
            Opt::Str(opt) => opt.is_pad(n),
        }
    }

    /// How many bytes the option takes up in a packet.
    pub open spec fn spec_wire_size(self) -> nat {
        match self {
            Opt::Pad0(_) => 1,
            Opt::Str(opt) => opt.spec_wire_size(),
        }
    }

    /// How many bytes the option takes up in a packet.
    pub fn wire_size(&self) -> (size: usize)
        requires
            self.spec_wire_size() <= usize::MAX,
        ensures
            size == self.spec_wire_size(),
    {
        match self {
            Opt::Pad0(_) => 1,
            Opt::Str(opt) => opt.wire_size(),
        }
    }
}

/// How many bytes `options` take up together.
pub open spec fn options_size(options: Seq<Opt>) -> nat
    decreases options.len(),
{
    if options.len() == 0 {
        0
    } else {
        options_size(options.drop_last()) + options.last().spec_wire_size()
    }
}

/// Whether `data` starts with a length from which the length of a header can
/// be told: with the two bytes in front of the options it is at least eight
/// bytes, and still fits in a byte.
pub open spec fn has_header_length(data: Seq<u8>) -> bool {
    data.len() >= 2 && 8 <= data[1] + 2 <= u8::MAX
}

/// The length field of a header whose options take up `size` bytes: in units
/// of eight bytes, of which the first does not count.
pub open spec fn header_length(size: int) -> int {
    (size + 2) / 8 - 1
}

/// `data`, with the number of bytes of its options in its second byte, as the
/// system takes it.
pub open spec fn header_of(data: Seq<u8>) -> Seq<u8> {
    data.update(1, header_length(data[1] as int) as u8)
}

/// Whether `data` starts with a length from which the length of a header can
/// be told.
pub fn is_dstopt(data: &Vec<u8>) -> (yes: bool)
    ensures
        yes == has_header_length(data@),
{
    data.len() >= 2 && data[1] >= 6 && data[1] <= 253
}

/// Turn serialized options, whose second byte tells how many bytes the
/// options take up, into the header that the system takes.
pub fn set_dstopt(data: &mut Vec<u8>)
    requires
        has_header_length(old(data)@),
    ensures
        final(data)@ == header_of(old(data)@),
{
    let length: u8 = data[1] + 2;
    let units: u8 = if length == 8 {
        0
    } else {
        length / 8 - 1
    };
    data.set(1, units);
}

/// An option that fills a gap takes up exactly as many bytes as the gap has,
/// whatever its length, and an option that carries a text takes up two bytes
/// more than the text.
pub proof fn law_option_sizes(opt: Opt, n: u8, s: Seq<char>)
    ensures
        opt.fills(n) ==> opt.spec_wire_size() == n,
        opt matches Opt::Str(text) && text.is_text(s) ==> opt.spec_wire_size() == 2 + encode_utf8(
            s,
        ).len(),
{
    if let Opt::Str(pad) = opt {
        if pad.is_pad(n) {
            lemma_pad_size(pad, n);
        }
    }
}

/// Where the options are padded to a multiple of eight bytes together with
/// the two bytes in front of them, the header's length field tells exactly how
/// long the header is.
pub proof fn law_header_length_is_exact(opts: DstOpts, data: Seq<u8>)
    requires
        has_header_length(data),
        data[1] == options_size(opts.options@),
        (options_size(opts.options@) + 2) % 8 == 0,
    ensures
        8 * (header_of(data)[1] + 1) == options_size(opts.options@) + 2,
{
}

/// The header differs from the serialized options in its length field alone.
pub proof fn law_header_keeps_options(data: Seq<u8>)
    requires
        has_header_length(data),
    ensures
        header_of(data).len() == data.len(),
        header_of(data)[0] == data[0],
        header_of(data).skip(2) == data.skip(2),
{
    assert(header_of(data).skip(2) =~= data.skip(2));
}

/// The length field counts the whole units of eight bytes of the header, but for
/// the first. It can be told from options of six bytes or more, as long as their
/// size and that of the two bytes in front of them fits in a byte.
pub proof fn law_header_length_counts_whole_units(data: Seq<u8>)
    ensures
        has_header_length(data) <==> data.len() >= 2 && 6 <= data[1] <= 253,
        has_header_length(data) ==> 8 * (header_of(data)[1] + 1) <= data[1] + 2 < 8 * (header_of(
            data,
        )[1] + 2),
{
}

/// Padding is of type 1 and all zeros; a text is of type 30, and carried as it is.
pub proof fn law_option_types(opt: StrOpt, n: u8, s: Seq<char>)
    ensures
        opt.is_pad(n) ==> opt.typ == 1 && opt.content@.len() == n - 2 && forall|i: int|
            0 <= i < opt.content@.len() ==> #[trigger] opt.content@[i] == '\0',
        opt.is_text(s) ==> opt.typ == 30 && opt.content@ == s,
        !(opt.is_pad(n) && opt.is_text(s)),
        Opt::Str(opt).spec_wire_size() == 2 + encode_utf8(opt.content@).len(),
        Opt::Pad0(n).spec_wire_size() == 1,
{
}

} // verus!

//! Shaping the `ClientHello` to resemble another TLS implementation.
//!
//! A hello is recognisable by its extensions alone, before a single byte of
//! application data is exchanged. This module carries the parts of looking like
//! someone else that belong in the TLS stack: GREASE, padding, and room for
//! extensions that the stack has no reason to model. Which extensions a given
//! browser sends, in what order, with what bodies, is up to the caller.

use vstd::prelude::*;

verus! {

/// An extension as it goes on the wire.
#[derive(Debug)]
pub struct RawExtension {
    /// The type.
    pub typ: u16,
    /// The body.
    pub payload: Vec<u8>,
}

impl View for RawExtension {
    type V = (u16, Seq<u8>);

    open spec fn view(&self) -> (u16, Seq<u8>) {
        (self.typ, self.payload@)
    }
}

impl RawExtension {
    /// An extension without a body.
    pub fn empty(typ: u16) -> (ext: Self)
        ensures
            ext@ == (typ, Seq::<u8>::empty()),
    {
        RawExtension { typ, payload: Vec::new() }
    }
}

impl Clone for RawExtension {
    fn clone(&self) -> (ext: Self)
        ensures
            ext@ == self@,
    {
        let payload = self.payload.clone();
        assert(payload@ =~= self.payload@);
        RawExtension { typ: self.typ, payload }
    }
}

/// What a list of extensions holds.
pub open spec fn extension_views(list: Seq<RawExtension>) -> Seq<(u16, Seq<u8>)> {
    Seq::new(list.len(), |i: int| list[i]@)
}

/// Appends copies of extensions.
pub(crate) fn extend_extensions(out: &mut Vec<RawExtension>, list: &Vec<RawExtension>)
    ensures
        extension_views(final(out)@) == extension_views(old(out)@) + extension_views(list@),
{
    let mut k: usize = 0;
    assert(extension_views(list@).take(0) =~= Seq::empty());
    assert(extension_views(out@) + Seq::empty() =~= extension_views(out@));
    while k < list.len()
        invariant
            k <= list@.len(),
            extension_views(out@) == extension_views(old(out)@) + extension_views(list@).take(
                k as int,
            ),
        decreases list@.len() - k,
    {
        let ghost before = out@;
        out.push(list[k].clone());
        assert(extension_views(out@) =~= extension_views(before).push(list@[k as int]@));
        assert(extension_views(list@).take(k + 1) =~= extension_views(list@).take(k as int).push(
            list@[k as int]@,
        ));
        k = k + 1;
    }
    assert(extension_views(list@).take(k as int) =~= extension_views(list@));
}

/// How the `ClientHello` should look on the wire.
///
/// The default sends what would be sent anyway. Every field below moves the
/// hello towards resembling something else, and none of them change what is
/// negotiated: GREASE values are ignored by any correct peer, and verbatim
/// extensions are the caller's business.
#[derive(Debug)]
pub struct ClientHelloProfile {
    /// Advertise GREASE values (RFC 8701).
    ///
    /// When set, a reserved value is added to the cipher suite list, the
    /// supported groups list, the key share list and the supported versions
    /// list, and two more appear as extensions of their own - one first in the
    /// extension list, one just before the trailing extensions. That is what
    /// browsers built on BoringSSL do, down to the bodies of the two: the
    /// first empty, the second a single zero byte.
    pub grease: bool,
    /// Extensions written before everything that the stack generates.
    pub prepend_extensions: Vec<RawExtension>,
    /// Extensions written after everything that the stack generates.
    ///
    /// They still precede the extensions the standard pins to the end of the
    /// list - encrypted client hello and the pre-shared key offer.
    pub append_extensions: Vec<RawExtension>,
    /// Pad the hello out with a `padding` extension (RFC 7685).
    pub padding: Option<Padding>,
    /// The cipher suite list to put on the wire, in this order.
    ///
    /// By default the suites that the provider holds are advertised, which is
    /// also the set that can be negotiated. Suites listed here are advertised
    /// and nothing more: if the peer selects one that the provider cannot
    /// actually do, the handshake fails. Nothing else in the hello is derived
    /// from this field.
    pub cipher_suites: Option<Vec<u16>>,
}

impl Default for ClientHelloProfile {
    fn default() -> (profile: Self)
        ensures
            !profile.grease,
            profile.prepend_extensions@.len() == 0,
            profile.append_extensions@.len() == 0,
            profile.padding is None,
            profile.cipher_suites is None,
    {
        ClientHelloProfile {
            grease: false,
            prepend_extensions: Vec::new(),
            append_extensions: Vec::new(),
            padding: None,
            cipher_suites: None,
        }
    }
}

/// What a [`ClientHelloProfile`] asks for.
pub struct ProfileModel {
    /// Whether GREASE is wanted.
    pub grease: bool,
    /// What goes before the generated extensions.
    pub prepend_extensions: Seq<(u16, Seq<u8>)>,
    /// What goes behind the generated extensions.
    pub append_extensions: Seq<(u16, Seq<u8>)>,
    /// The padding rule.
    pub padding: Option<Padding>,
    /// The cipher suite list that is dictated.
    pub cipher_suites: Option<Seq<u16>>,
}

impl View for ClientHelloProfile {
    type V = ProfileModel;

    open spec fn view(&self) -> ProfileModel {
        ProfileModel {
            grease: self.grease,
            prepend_extensions: extension_views(self.prepend_extensions@),
            append_extensions: extension_views(self.append_extensions@),
            padding: self.padding,
            cipher_suites: match self.cipher_suites {
                Some(list) => Some(list@),
                None => None,
            },
        }
    }
}

impl Clone for ClientHelloProfile {
    fn clone(&self) -> (profile: Self)
        ensures
            profile@ == self@,
    {
        let mut prepend_extensions: Vec<RawExtension> = Vec::new();
        extend_extensions(&mut prepend_extensions, &self.prepend_extensions);
        let mut append_extensions: Vec<RawExtension> = Vec::new();
        extend_extensions(&mut append_extensions, &self.append_extensions);
        let cipher_suites = match &self.cipher_suites {
            Some(list) => {
                let copy = list.clone();
                assert(copy@ =~= list@);
                Some(copy)
            },
            None => None,
        };
        let profile = ClientHelloProfile {
            grease: self.grease,
            prepend_extensions,
            append_extensions,
            padding: self.padding,
            cipher_suites,
        };
        assert(profile@.prepend_extensions =~= self@.prepend_extensions);
        assert(profile@.append_extensions =~= self@.append_extensions);
        profile
    }
}

/// When and how far to pad the `ClientHello`.
///
/// Padding exists because some middleboxes mishandle a hello whose length
/// lands in a particular range; browsers therefore pad out of that range
/// unconditionally. Its side effect is that hello length stops being a
/// distinguishing feature, which is why it belongs here.
#[derive(Clone, Copy, Debug)]
pub struct Padding {
    /// Pad only if the hello has reached this length. Shorter helloes are left
    /// alone: padding a small hello would itself stand out.
    pub only_above: usize,
    /// Length to pad up to.
    pub up_to: usize,
}

impl Default for Padding {
    /// The rule BoringSSL applies, and so every browser built on it.
    fn default() -> (padding: Self)
        ensures
            padding == (Padding { only_above: 0x100, up_to: 0x200 }),
    {
        Padding { only_above: 0x100, up_to: 0x200 }
    }
}

/// What an extension adds to its body: type and length.
pub const EXTENSION_HEADER: usize = 4;

/// How many zero bytes a padding extension holds, if one is sent at all.
pub open spec fn padding_body(padding: Padding, hello_len: nat) -> Option<nat> {
    if padding.only_above <= hello_len < padding.up_to {
        if hello_len + EXTENSION_HEADER <= padding.up_to {
            Some((padding.up_to - hello_len - EXTENSION_HEADER) as nat)
        } else {
            Some(0)
        }
    } else {
        None
    }
}

/// The length of a hello of `hello_len` bytes once it has been padded.
pub open spec fn padded_len(padding: Padding, hello_len: nat) -> nat {
    match padding_body(padding, hello_len) {
        Some(body) => (hello_len + EXTENSION_HEADER + body) as nat,
        None => hello_len,
    }
}

impl Padding {
    /// How many zero bytes the padding extension body needs, given the length
    /// the hello has reached without it.
    ///
    /// `None` when no padding extension should be sent at all - which is not
    /// the same as an empty one, that being a visible difference on the wire.
    /// The extension header is itself part of what is padded. If it alone
    /// overshoots the target, the body is empty rather than negative.
    pub fn body_len(&self, hello_len: usize) -> (len: Option<usize>)
        ensures
            match padding_body(*self, hello_len as nat) {
                Some(body) => len == Some(body as usize) && body <= usize::MAX,
                None => len is None,
            },
    {
        if hello_len < self.only_above || hello_len >= self.up_to {
            return None;
        }
        Some(self.up_to.saturating_sub(hello_len).saturating_sub(EXTENSION_HEADER))
    }
}

/// Inside the window a hello is padded to the target exactly, except that one
/// with no room for the extension header overshoots by what the header lacks;
/// outside the window nothing changes.
pub proof fn padding_reaches_the_target(padding: Padding, hello_len: nat)
    ensures
        padding.only_above <= hello_len && hello_len + EXTENSION_HEADER <= padding.up_to
            ==> padded_len(padding, hello_len) == padding.up_to,
        padding.only_above <= hello_len < padding.up_to < hello_len + EXTENSION_HEADER
            ==> padded_len(padding, hello_len) == hello_len + EXTENSION_HEADER,
        hello_len < padding.only_above || padding.up_to <= hello_len ==> padded_len(
            padding,
            hello_len,
        ) == hello_len,
        padded_len(padding, hello_len) < padding.up_to + EXTENSION_HEADER || padded_len(
            padding,
            hello_len,
        ) == hello_len,
{
}

/// A hello that has been padded is not padded again.
pub proof fn padding_is_done_once(padding: Padding, hello_len: nat)
    requires
        padding_body(padding, hello_len) is Some,
    ensures
        padding_body(padding, padded_len(padding, hello_len)) is None,
{
}

/// The padding extension fills what is missing to the target, its own four bytes of
/// header counted in, and is empty where less than that is missing. It is sent just where
/// the hello has reached the window and not yet the target.
pub proof fn padding_fills_what_is_missing(padding: Padding, hello_len: nat)
    ensures
        padding_body(padding, hello_len) is Some <==> padding.only_above <= hello_len
            && hello_len < padding.up_to,
        padding_body(padding, hello_len) matches Some(body) ==> {
            ||| hello_len + 4 + body == padding.up_to
            ||| body == 0 && hello_len + 4 > padding.up_to
        },
        padding_body(padding, hello_len) matches Some(body) ==> padded_len(padding, hello_len)
            == hello_len + 4 + body,
{
}

/// The view of a list of extensions leaves out nothing: every extension is in it, in its
/// place, with its type and its whole body.
pub proof fn extensions_are_seen_whole(list: Seq<RawExtension>, i: int)
    ensures
        extension_views(list).len() == list.len(),
        0 <= i < list.len() ==> extension_views(list)[i].0 == list[i].typ
            && extension_views(list)[i].1 == list[i].payload@,
{
}

/// The view of a profile leaves out nothing.
pub proof fn profiles_are_seen_whole(profile: ClientHelloProfile)
    ensures
        profile@.grease == profile.grease,
        profile@.prepend_extensions == extension_views(profile.prepend_extensions@),
        profile@.append_extensions == extension_views(profile.append_extensions@),
        profile@.padding == profile.padding,
        profile.cipher_suites is None ==> profile@.cipher_suites is None,
        profile.cipher_suites matches Some(list) ==> profile@.cipher_suites == Some(list@),
{
}

} // verus!

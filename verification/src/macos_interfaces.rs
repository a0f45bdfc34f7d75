//! Whether a Darwin interface has a link, from its flags and media status.

use vstd::prelude::*;

verus! {

/// The size of an interface name with its terminating NUL.
pub const IFNAMSIZ: usize = 16;

/// `EOPNOTSUPP` on Darwin.
pub const NOT_SUPPORTED: i32 = 102;

/// `EINVAL` on Darwin.
pub const INVALID: i32 = 22;

/// An interface name as a request holds it: its bytes, padded with NULs; nothing
/// where it is too long to leave room for one.
pub fn interface_name(name: &str) -> (padded: Option<[u8; 16]>)
    ensures
        ({
            let bytes = vstd::utf8::encode_utf8(name@);
            match padded {
                Some(buffer) => {
                    &&& bytes.len() < IFNAMSIZ
                    &&& forall|i: int|
                        0 <= i < IFNAMSIZ ==> #[trigger] buffer@[i] == if i < bytes.len() {
                            bytes[i]
                        } else {
                            0
                        }
                },
                None => bytes.len() >= IFNAMSIZ,
            }
        }),
{
    let bytes: &[u8] = name.as_bytes();
    if bytes.len() >= IFNAMSIZ {
        return None;
    }
    let mut buffer: [u8; 16] = [0; 16];
    for at in 0..bytes.len()
        invariant
            bytes@.len() < IFNAMSIZ,
            forall|i: int|
                0 <= i < IFNAMSIZ ==> #[trigger] buffer@[i] == if i < at { bytes@[i] } else { 0 },
    {
        buffer[at] = bytes[at];
    }
    Some(buffer)
}

/// Whether the flags say that the interface is administratively up.
pub open spec fn flags_are_up(flags: i16) -> bool {
    flags as int % 2 == 1
}

/// Executable [`flags_are_up`].
pub fn is_administratively_up(flags: i16) -> (up: bool)
    ensures
        up == flags_are_up(flags),
{
    let bits: i32 = flags as i32;
    assert(bits & 1 != 0 <==> bits % 2 == 1 || bits % 2 == -1) by (bit_vector);
    bits & 1 != 0
}

/// What the media request of an interface came back with.
#[derive(Debug, Clone, Copy, PartialEq, Eq, Structural)]
pub enum Media {
    Status(i32),
    /// It failed, with this error number if there is one.
    Failed(Option<i32>),
}

/// Whether an interface that is administratively up has a link: its media
/// status is valid and active, or it is a virtual device that has no media
/// status. Nothing where the request failed otherwise.
pub fn has_link(media: Media) -> (link: Option<bool>)
    ensures
        link == match media {
            Media::Status(status) => Some(status & 3 == 3),
            Media::Failed(error) => if error == Some(NOT_SUPPORTED) || error == Some(INVALID) {
                Some(true)
            } else {
                None
            },
        },
{
    match media {
        Media::Status(status) => Some(status & 3 == 3),
        Media::Failed(Some(error)) => if error == NOT_SUPPORTED || error == INVALID {
            Some(true)
        } else {
            None
        },
        Media::Failed(None) => None,
    }
}

/// What is done next about an interface, or what is known of it.
#[derive(Debug, Clone, Copy, PartialEq, Eq, Structural)]
pub enum LinkStep {
    /// Ask for its media status.
    AskMedia,
    /// It has a link, or none.
    Known(bool),
    /// Its state cannot be told.
    Failed,
}

/// What the flags of an interface and its media status, where that has been
/// asked for, say together. One that is not administratively up has no link, and
/// its media status is not asked for; of any other the media status decides.
pub open spec fn spec_is_up(flags: i16, media: Option<Media>) -> LinkStep {
    if !flags_are_up(flags) {
        LinkStep::Known(false)
    } else {
        match media {
            None => LinkStep::AskMedia,
            Some(Media::Status(status)) => LinkStep::Known(status & 3 == 3),
            Some(Media::Failed(error)) => if error == Some(NOT_SUPPORTED) || error == Some(INVALID) {
                LinkStep::Known(true)
            } else {
                LinkStep::Failed
            },
        }
    }
}

/// Executable [`spec_is_up`].
pub fn is_up(flags: i16, media: Option<Media>) -> (step: LinkStep)
    ensures
        step == spec_is_up(flags, media),
{
    if !is_administratively_up(flags) {
        return LinkStep::Known(false);
    }
    match media {
        None => LinkStep::AskMedia,
        Some(media) => match has_link(media) {
            Some(link) => LinkStep::Known(link),
            None => LinkStep::Failed,
        },
    }
}

/// The flags say that an interface is administratively up just where their
/// lowest bit is set.
pub proof fn law_lowest_flag_is_up(flags: i16)
    ensures
        flags_are_up(flags) <==> flags & 1 == 1,
{
    assert(flags & 1 == 1 <==> flags as int % 2 == 1) by {
        let bits: i32 = flags as i32;
        assert(flags & 1 == 1 <==> bits & 1 == 1) by (bit_vector)
            requires
                bits == flags as i32,
        ;
        assert(bits & 1 == 1 <==> bits % 2 == 1 || bits % 2 == -1) by (bit_vector);
    }
}

/// An interface that is down has no link, whatever its media status, which is
/// not asked for; of one that is up the media status is asked for first.
pub proof fn law_media_is_asked_of_what_is_up(flags: i16, media: Option<Media>)
    ensures
        flags & 1 == 0 ==> spec_is_up(flags, media) == LinkStep::Known(false),
        spec_is_up(flags, media) == LinkStep::AskMedia <==> flags & 1 == 1 && media is None,
{
    law_lowest_flag_is_up(flags);
    assert(flags & 1 == 0 || flags & 1 == 1) by (bit_vector);
}

/// An interface that is up has a link just where its media status is both valid
/// and active. A device without a media status, which the system says by
/// `EOPNOTSUPP` or `EINVAL`, counts as linked; any other failure is one.
pub proof fn law_link_is_valid_and_active(flags: i16, status: i32, error: Option<i32>)
    requires
        flags & 1 == 1,
    ensures
        spec_is_up(flags, Some(Media::Status(status))) == LinkStep::Known(
            status & 1 == 1 && status & 2 == 2,
        ),
        spec_is_up(flags, Some(Media::Failed(error))) == if error == Some(102i32) || error == Some(22i32) {
            LinkStep::Known(true)
        } else {
            LinkStep::Failed
        },
{
    law_lowest_flag_is_up(flags);
    assert(status & 3 == 3 <==> status & 1 == 1 && status & 2 == 2) by (bit_vector);
}

} // verus!

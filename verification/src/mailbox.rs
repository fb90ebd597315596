//! The inter-core mailbox of dual-core boards: one queue in each direction,
//! placed in the `cm7_to_cm4` and `cm4_to_cm7` sections of `SRAM4`.

use vstd::prelude::*;

use crate::memory::MemoryLayout;
use crate::memory::section::MemorySection;

verus! {

/// Which of the two mailbox queues.
#[derive(Clone, Copy, Debug, PartialEq, Eq)]
pub enum QueueDirection {
    /// CM7 producer, CM4 consumer.
    Cm7ToCm4,
    /// CM4 producer, CM7 consumer.
    Cm4ToCm7,
}

/// Why a mailbox cannot be placed in a layout.
#[derive(Clone, Copy, Debug, PartialEq, Eq)]
pub enum MailboxError {
    /// The layout has no such section in `SRAM4`.
    MissingSection(QueueDirection),
    /// The section is smaller than a queue.
    SectionTooSmall(QueueDirection),
    /// The section starts at address zero.
    NullOrigin(QueueDirection),
}

/// Addresses of the two queues of the inter-core mailbox.
#[derive(Clone, Copy, Debug, PartialEq, Eq)]
pub struct Mailbox {
    /// CM7 producer, CM4 consumer.
    pub cm7_to_cm4: usize,
    /// CM4 producer, CM7 consumer.
    pub cm4_to_cm7: usize,
}

/// The mailbox of `layout` for queues of `queue_size` bytes: both sections
/// must exist, hold a queue and not start at address zero.
pub open spec fn spec_mailbox(to_cm4: Option<MemorySection>, to_cm7: Option<MemorySection>, queue_size: usize) -> Result<Mailbox, MailboxError> {
    match (to_cm4, to_cm7) {
        (None, _) => Err(MailboxError::MissingSection(QueueDirection::Cm7ToCm4)),
        (_, None) => Err(MailboxError::MissingSection(QueueDirection::Cm4ToCm7)),
        (Some(a), Some(b)) => {
            if a.length < queue_size {
                Err(MailboxError::SectionTooSmall(QueueDirection::Cm7ToCm4))
            } else if b.length < queue_size {
                Err(MailboxError::SectionTooSmall(QueueDirection::Cm4ToCm7))
            } else if a.origin == 0 {
                Err(MailboxError::NullOrigin(QueueDirection::Cm7ToCm4))
            } else if b.origin == 0 {
                Err(MailboxError::NullOrigin(QueueDirection::Cm4ToCm7))
            } else {
                Ok(Mailbox { cm7_to_cm4: a.origin, cm4_to_cm7: b.origin })
            }
        },
    }
}

/// A mailbox is placed exactly when both sections exist, each is at least
/// as long as a queue (exactly as long is enough), and neither starts at
/// address zero; its queues then start at the sections' origins.
pub proof fn lemma_mailbox_placed(to_cm4: Option<MemorySection>, to_cm7: Option<MemorySection>, queue_size: usize)
    ensures
        spec_mailbox(to_cm4, to_cm7, queue_size) is Ok <==> {
            &&& to_cm4 is Some
            &&& to_cm7 is Some
            &&& to_cm4->Some_0.length >= queue_size
            &&& to_cm7->Some_0.length >= queue_size
            &&& to_cm4->Some_0.origin != 0
            &&& to_cm7->Some_0.origin != 0
        },
        spec_mailbox(to_cm4, to_cm7, queue_size) is Ok ==> spec_mailbox(to_cm4, to_cm7, queue_size)->Ok_0 == (
        Mailbox { cm7_to_cm4: to_cm4->Some_0.origin, cm4_to_cm7: to_cm7->Some_0.origin }),
{
}

impl Mailbox {
    /// Place the mailbox's queues, of `queue_size` bytes each, in the
    /// `cm7_to_cm4` and `cm4_to_cm7` sections of `SRAM4` in `layout`.
    pub fn new(layout: MemoryLayout, queue_size: usize) -> (r: Result<Mailbox, MailboxError>)
        requires
            layout.can_resolve_section("SRAM4"@, "cm7_to_cm4"@),
            layout.can_resolve_section("SRAM4"@, "cm4_to_cm7"@),
        ensures
            r == spec_mailbox(
                layout.spec_section("SRAM4"@, "cm7_to_cm4"@),
                layout.spec_section("SRAM4"@, "cm4_to_cm7"@),
                queue_size,
            ),
    {
        let to_cm4 = layout.section("SRAM4", "cm7_to_cm4");
        let to_cm7 = layout.section("SRAM4", "cm4_to_cm7");
        let a = match to_cm4 {
            Some(a) => a,
            None => return Err(MailboxError::MissingSection(QueueDirection::Cm7ToCm4)),
        };
        let b = match to_cm7 {
            Some(b) => b,
            None => return Err(MailboxError::MissingSection(QueueDirection::Cm4ToCm7)),
        };
        if a.length < queue_size {
            return Err(MailboxError::SectionTooSmall(QueueDirection::Cm7ToCm4));
        }
        if b.length < queue_size {
            return Err(MailboxError::SectionTooSmall(QueueDirection::Cm4ToCm7));
        }
        if a.origin == 0 {
            return Err(MailboxError::NullOrigin(QueueDirection::Cm7ToCm4));
        }
        if b.origin == 0 {
            return Err(MailboxError::NullOrigin(QueueDirection::Cm4ToCm7));
        }
        Ok(Mailbox { cm7_to_cm4: a.origin, cm4_to_cm7: b.origin })
    }
}

} // verus!

//! The canonical vocabulary of shipment progress.

use vstd::prelude::*;
use crate::text::str_eq;

verus! {

/// A stage of a shipment's progress, in the order in which a shipment
/// normally passes through them.
#[derive(Clone, Copy, Debug, PartialEq, Eq, Structural, PartialOrd, Ord, Hash)]
pub enum StatusMilestone {
    Pending,
    InfoReceived,
    InTransit,
    OutForDelivery,
    FailedAttempt,
    AvailableForPickup,
    Delivered,
    Exception,
}

impl StatusMilestone {
    /// The milestone that a provider's tag stands for; a tag outside the
    /// vocabulary stands for `Pending`.
    pub open spec fn spec_from_str(s: Seq<char>) -> StatusMilestone {
        if s == "info_received"@ {
            StatusMilestone::InfoReceived
        } else if s == "in_transit"@ {
            StatusMilestone::InTransit
        } else if s == "out_for_delivery"@ {
            StatusMilestone::OutForDelivery
        } else if s == "failed_attempt"@ {
            StatusMilestone::FailedAttempt
        } else if s == "available_for_pickup"@ {
            StatusMilestone::AvailableForPickup
        } else if s == "delivered"@ {
            StatusMilestone::Delivered
        } else if s == "exception"@ {
            StatusMilestone::Exception
        } else {
            StatusMilestone::Pending
        }
    }

    /// The rank by which milestones are ordered.
    pub open spec fn spec_order(self) -> u8 {
        match self {
            StatusMilestone::Pending => 0,
            StatusMilestone::InfoReceived => 1,
            StatusMilestone::InTransit => 2,
            StatusMilestone::OutForDelivery => 3,
            StatusMilestone::FailedAttempt => 4,
            StatusMilestone::AvailableForPickup => 5,
            StatusMilestone::Delivered => 6,
            StatusMilestone::Exception => 7,
        }
    }

    /// The name under which a milestone is shown.
    pub open spec fn spec_to_string(self) -> Seq<char> {
        match self {
            StatusMilestone::Pending => "Pending"@,
            StatusMilestone::InfoReceived => "Information Received"@,
            StatusMilestone::InTransit => "In Transit"@,
            StatusMilestone::OutForDelivery => "Out for Delivery"@,
            StatusMilestone::FailedAttempt => "Failed Attempt"@,
            StatusMilestone::AvailableForPickup => "Available for Pickup"@,
            StatusMilestone::Delivered => "Delivered"@,
            StatusMilestone::Exception => "Exception"@,
        }
    }

    /// The sentence that labels a step whose carrier gave no text.
    pub open spec fn spec_phrase(self) -> Seq<char> {
        match self {
            StatusMilestone::Pending => "Package status is pending"@,
            StatusMilestone::InfoReceived => "Package information received"@,
            StatusMilestone::InTransit => "Package is in transit"@,
            StatusMilestone::OutForDelivery => "Package is out for delivery"@,
            StatusMilestone::FailedAttempt => "Delivery attempt failed"@,
            StatusMilestone::AvailableForPickup => "Package is available for pickup"@,
            StatusMilestone::Delivered => "Package has been delivered"@,
            StatusMilestone::Exception => "Package has an exception"@,
        }
    }

    /// Whether a shipment that stands at `current` is past this milestone:
    /// a delivered shipment is past every milestone, any other is past the
    /// milestones of lower rank.
    pub open spec fn spec_is_completed_at(self, current: StatusMilestone) -> bool {
        current == StatusMilestone::Delivered || self.spec_order() < current.spec_order()
    }

    pub fn from_str(s: &str) -> (m: StatusMilestone)
        ensures
            m == Self::spec_from_str(s@),
    {
        if str_eq(s, "info_received") {
            StatusMilestone::InfoReceived
        } else if str_eq(s, "in_transit") {
            StatusMilestone::InTransit
        } else if str_eq(s, "out_for_delivery") {
            StatusMilestone::OutForDelivery
        } else if str_eq(s, "failed_attempt") {
            StatusMilestone::FailedAttempt
        } else if str_eq(s, "available_for_pickup") {
            StatusMilestone::AvailableForPickup
        } else if str_eq(s, "delivered") {
            StatusMilestone::Delivered
        } else if str_eq(s, "exception") {
            StatusMilestone::Exception
        } else {
            StatusMilestone::Pending
        }
    }

    pub fn order(&self) -> (rank: u8)
        ensures
            rank == self.spec_order(),
    {
        match self {
            StatusMilestone::Pending => 0,
            StatusMilestone::InfoReceived => 1,
            StatusMilestone::InTransit => 2,
            StatusMilestone::OutForDelivery => 3,
            StatusMilestone::FailedAttempt => 4,
            StatusMilestone::AvailableForPickup => 5,
            StatusMilestone::Delivered => 6,
            StatusMilestone::Exception => 7,
        }
    }

    pub fn to_string(&self) -> (name: &'static str)
        ensures
            name@ == self.spec_to_string(),
    {
        match self {
            StatusMilestone::Pending => "Pending",
            StatusMilestone::InfoReceived => "Information Received",
            StatusMilestone::InTransit => "In Transit",
            StatusMilestone::OutForDelivery => "Out for Delivery",
            StatusMilestone::FailedAttempt => "Failed Attempt",
            StatusMilestone::AvailableForPickup => "Available for Pickup",
            StatusMilestone::Delivered => "Delivered",
            StatusMilestone::Exception => "Exception",
        }
    }

    pub fn phrase(&self) -> (text: &'static str)
        ensures
            text@ == self.spec_phrase(),
    {
        match self {
            StatusMilestone::Pending => "Package status is pending",
            StatusMilestone::InfoReceived => "Package information received",
            StatusMilestone::InTransit => "Package is in transit",
            StatusMilestone::OutForDelivery => "Package is out for delivery",
            StatusMilestone::FailedAttempt => "Delivery attempt failed",
            StatusMilestone::AvailableForPickup => "Package is available for pickup",
            StatusMilestone::Delivered => "Package has been delivered",
            StatusMilestone::Exception => "Package has an exception",
        }
    }

    pub fn is_completed_at(&self, current: Self) -> (done: bool)
        ensures
            done == self.spec_is_completed_at(current),
    {
        if current == StatusMilestone::Delivered {
            true
        } else {
            self.order() < current.order()
        }
    }

    /// The rank orders the milestones totally: it stays below eight and no
    /// two milestones share one.
    pub proof fn lemma_order_is_total(a: StatusMilestone, b: StatusMilestone)
        ensures
            a.spec_order() < 8,
            a.spec_order() == b.spec_order() <==> a == b,
    {
    }

    /// A delivered shipment is past every milestone, even its own and the
    /// one ranked after it.
    pub proof fn lemma_delivered_completes_all(m: StatusMilestone)
        ensures
            m.spec_is_completed_at(StatusMilestone::Delivered),
    {
    }
}

} // verus!

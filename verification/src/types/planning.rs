use crate::types::database_ids::{CalendarId, CalendarUserId, PlanningId, PlanningUserId, UserId};
use crate::types::enc_string::EncString;
use vstd::prelude::*;

verus! {

/// A planning: a span of days, cut into slots, that its participants fill.
#[derive(Debug)]
pub struct Planning {
    id: PlanningId,
    pub owner_id: UserId,
    pub title: EncString,
    pub key: EncString,
    pub start_date: i64,
    pub end_date: i64,
    pub time_precision: i64,
    pub start_daily_hour: i64,
    pub end_daily_hour: i64,
    pub require_account: bool,
}

impl Planning {
    pub closed spec fn spec_id(&self) -> PlanningId {
        self.id
    }

    pub fn id(&self) -> (r: &PlanningId)
        ensures
            *r == self.spec_id(),
    {
        &self.id
    }

    /// The planning with the given title, as it is stored under a key.
    pub fn stored(id: PlanningId, owner_id: UserId, title: EncString, key: EncString) -> (r: Self)
        ensures
            r.spec_id() == id,
    {
        Planning {
            id,
            owner_id,
            title,
            key,
            start_date: 0,
            end_date: 0,
            time_precision: 0,
            start_daily_hour: 0,
            end_daily_hour: 0,
            require_account: false,
        }
    }
}

/// A participant of a planning.
#[derive(Debug)]
pub struct PlanningUser {
    id: PlanningUserId,
    pub name: EncString,
    pub planning_id: PlanningId,
    pub user_id: Option<UserId>,
}

impl PlanningUser {
    pub closed spec fn spec_id(&self) -> PlanningUserId {
        self.id
    }

    pub fn id(&self) -> (r: &PlanningUserId)
        ensures
            *r == self.spec_id(),
    {
        &self.id
    }

    /// The participant as it is stored under a key.
    pub fn stored(id: PlanningUserId, name: EncString, planning_id: PlanningId, user_id: Option<
        UserId,
    >) -> (r: Self)
        ensures
            r.spec_id() == id,
    {
        PlanningUser { id, name, planning_id, user_id }
    }
}

/// A participant of a calendar.
#[derive(Debug)]
pub struct CalendarUser {
    id: CalendarUserId,
    pub name: EncString,
    pub calendar_id: CalendarId,
    pub user_id: Option<UserId>,
}

impl CalendarUser {
    pub closed spec fn spec_id(&self) -> CalendarUserId {
        self.id
    }

    pub fn id(&self) -> (r: &CalendarUserId)
        ensures
            *r == self.spec_id(),
    {
        &self.id
    }

    /// The participant as it is stored under a key.
    pub fn stored(id: CalendarUserId, name: EncString, calendar_id: CalendarId, user_id: Option<
        UserId,
    >) -> (r: Self)
        ensures
            r.spec_id() == id,
    {
        CalendarUser { id, name, calendar_id, user_id }
    }
}

} // verus!

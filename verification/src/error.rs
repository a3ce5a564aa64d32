use vstd::prelude::*;

use crate::tick::Tick;

verus! {

/// Failures raised by the type-erased utility container.
#[derive(Clone, Copy, Debug, PartialEq, Eq, Structural)]
pub enum UtilityContainerError {
    /// A value was pushed whose type token does not match the container's
    /// declared token; the two tokens are carried for diagnosis.
    MismatchedTypeId(u64, u64),
    /// The key already owns a cell in this container.
    EntryOccupied,
}

/// Storage defects that indicate a broken typing discipline rather than a
/// caller mistake; they surface wrapped inside `DataError`.
#[derive(Clone, Copy, Debug, PartialEq, Eq, Structural)]
pub enum InternalDataError {
    /// A component was pushed to a row declared for another component type.
    MismatchedComponentType,
    /// No row for the requested component type exists.
    ContainerNotFound,
    /// An entity named by a cached archetype has no cell in the row.
    ComponentMissingForEntity,
}

/// Errors returned by entity and component storage operations.
#[derive(Clone, Copy, Debug, PartialEq, Eq, Structural)]
pub enum DataError {
    /// The entity identifier was never issued.
    EntityNotFound,
    /// The entity already owns a component of the given type.
    ComponentExistsForEntity,
    /// A storage-internal defect; see `InternalDataError`.
    Internal(InternalDataError),
}

/// Errors raised while registering or gating systems on events.
#[derive(Clone, Copy, Debug, PartialEq, Eq, Structural)]
pub enum EventError {
    /// A listener for this event token is already registered.
    EventAlreadyRegistered(u64),
    /// No listener for this event token was registered.
    EventNotFound(u64),
    /// An event carrying data was emitted, but no data could be fetched for
    /// the given tick.
    CannotFetchEventData(u64, Tick),
}

/// Errors raised while registering a system.
#[derive(Clone, Copy, Debug, PartialEq, Eq, Structural)]
pub enum SystemError {
    /// The query names the same component type more than once.
    QueryDeadlock,
}

/// The union of errors an engine operation can surface.
#[derive(Clone, Copy, Debug, PartialEq, Eq, Structural)]
pub enum P1Error {
    Data(DataError),
    System(SystemError),
}

impl InternalDataError {
    pub open spec fn message_spec(self) -> Seq<char> {
        match self {
            InternalDataError::MismatchedComponentType => {
                "A component was pushed to an incompatible container."@
            },
            InternalDataError::ContainerNotFound => {
                "No container for the provided component type was found."@
            },
            InternalDataError::ComponentMissingForEntity => {
                "An entity in a cached archetype is missing a component of the requested type."@
            },
        }
    }

    /// The human-readable description of this defect.
    pub fn message(&self) -> (r: &'static str)
        ensures
            r@ == self.message_spec(),
    {
        match self {
            InternalDataError::MismatchedComponentType => {
                "A component was pushed to an incompatible container."
            },
            InternalDataError::ContainerNotFound => {
                "No container for the provided component type was found."
            },
            InternalDataError::ComponentMissingForEntity => {
                "An entity in a cached archetype is missing a component of the requested type."
            },
        }
    }
}

impl DataError {
    pub open spec fn message_spec(self) -> Seq<char> {
        match self {
            DataError::EntityNotFound => "No entities with the provided id was found."@,
            DataError::ComponentExistsForEntity => {
                "Cannot attach component to entity because a component of that type is already attached."@
            },
            DataError::Internal(e) => e.message_spec(),
        }
    }

    /// The human-readable description of this error.
    pub fn message(&self) -> (r: &'static str)
        ensures
            r@ == self.message_spec(),
    {
        match self {
            DataError::EntityNotFound => "No entities with the provided id was found.",
            DataError::ComponentExistsForEntity => {
                "Cannot attach component to entity because a component of that type is already attached."
            },
            DataError::Internal(e) => e.message(),
        }
    }
}

impl SystemError {
    pub open spec fn message_spec(self) -> Seq<char> {
        "Not all query items in system were unique."@
    }

    /// The human-readable description of this error.
    pub fn message(&self) -> (r: &'static str)
        ensures
            r@ == self.message_spec(),
    {
        "Not all query items in system were unique."
    }
}

impl P1Error {
    pub open spec fn message_spec(self) -> Seq<char> {
        match self {
            P1Error::Data(e) => e.message_spec(),
            P1Error::System(e) => e.message_spec(),
        }
    }

    /// The human-readable description of this error.
    pub fn message(&self) -> (r: &'static str)
        ensures
            r@ == self.message_spec(),
    {
        match self {
            P1Error::Data(e) => e.message(),
            P1Error::System(e) => e.message(),
        }
    }
}

/// How a container fault reads at the component store: a mismatched type
/// token is an internal typing defect, an occupied entry means the entity
/// already owns a component of that type.
pub open spec fn data_error_of_container_error(value: UtilityContainerError) -> DataError {
    match value {
        UtilityContainerError::MismatchedTypeId(_, _) => {
            DataError::Internal(InternalDataError::MismatchedComponentType)
        },
        UtilityContainerError::EntryOccupied => DataError::ComponentExistsForEntity,
    }
}

impl From<UtilityContainerError> for DataError {
    fn from(value: UtilityContainerError) -> (r: DataError)
        ensures
            r == data_error_of_container_error(value),
    {
        match value {
            UtilityContainerError::MismatchedTypeId(_, _) => {
                DataError::Internal(InternalDataError::MismatchedComponentType)
            },
            UtilityContainerError::EntryOccupied => DataError::ComponentExistsForEntity,
        }
    }
}

impl vstd::std_specs::convert::FromSpecImpl<UtilityContainerError> for DataError {
    open spec fn obeys_from_spec() -> bool {
        true
    }

    open spec fn from_spec(value: UtilityContainerError) -> DataError {
        data_error_of_container_error(value)
    }
}

impl From<InternalDataError> for DataError {
    fn from(value: InternalDataError) -> (r: DataError)
        ensures
            r == DataError::Internal(value),
    {
        DataError::Internal(value)
    }
}

impl vstd::std_specs::convert::FromSpecImpl<InternalDataError> for DataError {
    open spec fn obeys_from_spec() -> bool {
        true
    }

    open spec fn from_spec(value: InternalDataError) -> DataError {
        DataError::Internal(value)
    }
}

impl From<DataError> for P1Error {
    fn from(value: DataError) -> (r: P1Error)
        ensures
            r == P1Error::Data(value),
    {
        P1Error::Data(value)
    }
}

impl vstd::std_specs::convert::FromSpecImpl<DataError> for P1Error {
    open spec fn obeys_from_spec() -> bool {
        true
    }

    open spec fn from_spec(value: DataError) -> P1Error {
        P1Error::Data(value)
    }
}

impl From<SystemError> for P1Error {
    fn from(value: SystemError) -> (r: P1Error)
        ensures
            r == P1Error::System(value),
    {
        P1Error::System(value)
    }
}

impl vstd::std_specs::convert::FromSpecImpl<SystemError> for P1Error {
    open spec fn obeys_from_spec() -> bool {
        true
    }

    open spec fn from_spec(value: SystemError) -> P1Error {
        P1Error::System(value)
    }
}

impl From<InternalDataError> for P1Error {
    fn from(value: InternalDataError) -> (r: P1Error)
        ensures
            r == P1Error::Data(DataError::Internal(value)),
    {
        P1Error::Data(DataError::Internal(value))
    }
}

impl vstd::std_specs::convert::FromSpecImpl<InternalDataError> for P1Error {
    open spec fn obeys_from_spec() -> bool {
        true
    }

    open spec fn from_spec(value: InternalDataError) -> P1Error {
        P1Error::Data(DataError::Internal(value))
    }
}

} // verus!

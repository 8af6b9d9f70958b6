//! A factory for [`ObjectDescription`]s.
use crate::geometry::default_rotation;
use crate::object::{Mobility, ObjectDescription};
use myelin_geometry::{Point, Polygon, Radians};
use vstd::prelude::*;

verus! {

/// An error representing the values that have
/// wrongly been omitted when building finished
#[derive(Debug, Clone, Default, Eq, PartialEq)]
pub struct ObjectBuilderError {
    /// Flag signaling that .shape(...) was never called
    pub missing_shape: bool,
    /// Flag signaling that .location(...) was never called
    pub missing_location: bool,
    /// Flag signaling that .mobility(...) was never called
    pub missing_mobility: bool,
}

/// [`ObjectDescription`] factory, which can be used in order to configure
/// the properties of a new object.
/// Methods can be chained on it in order to configure it.
#[derive(Debug)]
pub struct ObjectBuilder {
    shape: Option<Polygon>,
    location: Option<Point>,
    rotation: Option<Radians>,
    mobility: Option<Mobility>,
    passable: bool,
    associated_data: Vec<u8>,
}

/// The settings that an [`ObjectBuilder`] has been configured with
pub struct ObjectBuilderSettings {
    /// The configured shape, if any
    pub shape: Option<Polygon>,
    /// The configured location, if any
    pub location: Option<Point>,
    /// The configured rotation, if any
    pub rotation: Option<Radians>,
    /// The configured mobility, if any
    pub mobility: Option<Mobility>,
    /// Whether the object is going to be passable
    pub passable: bool,
    /// The data that is going to be associated with the object
    pub associated_data: Seq<u8>,
}

impl View for ObjectBuilder {
    type V = ObjectBuilderSettings;

    closed spec fn view(&self) -> ObjectBuilderSettings {
        ObjectBuilderSettings {
            shape: self.shape,
            location: self.location,
            rotation: self.rotation,
            mobility: self.mobility,
            passable: self.passable,
            associated_data: self.associated_data@,
        }
    }
}

impl ObjectBuilderSettings {
    /// A builder that has been configured with nothing yet
    pub open spec fn is_empty_builder(self) -> bool {
        &&& self.shape is None
        &&& self.location is None
        &&& self.rotation is None
        &&& self.mobility is None
        &&& !self.passable
        &&& self.associated_data == Seq::<u8>::empty()
    }

    /// Whether every setting that has no default has been configured
    pub open spec fn is_complete(self) -> bool {
        &&& self.shape is Some
        &&& self.location is Some
        &&& self.mobility is Some
    }

    /// The flags of the settings that are missing
    pub open spec fn missing_settings(self) -> ObjectBuilderError {
        ObjectBuilderError {
            missing_shape: self.shape is None,
            missing_location: self.location is None,
            missing_mobility: self.mobility is None,
        }
    }

    /// `description` holds exactly the configured settings (the default rotation being
    /// unconstrained when no rotation was configured)
    pub open spec fn describes(self, description: ObjectDescription) -> bool {
        &&& self.shape == Some(description.shape)
        &&& self.location == Some(description.location)
        &&& self.mobility == Some(description.mobility)
        &&& (self.rotation matches Some(rotation) ==> rotation == description.rotation)
        &&& self.passable == description.passable
        &&& self.associated_data == description.associated_data@
    }

}

impl ObjectBuilder {
    /// The builder that configures every setting as `object_description` has it
    pub closed spec fn from_description(object_description: ObjectDescription) -> ObjectBuilder {
        ObjectBuilder {
            shape: Some(object_description.shape),
            location: Some(object_description.location),
            rotation: Some(object_description.rotation),
            mobility: Some(object_description.mobility),
            passable: object_description.passable,
            associated_data: object_description.associated_data,
        }
    }

    /// Configures the shape of the object
    pub fn shape(&mut self, polygon: Polygon) -> (builder: &mut Self)
        ensures
            (*builder)@ == (ObjectBuilderSettings { shape: Some(polygon), ..old(self)@ }),
            final(self)@ == final(builder)@,
    {
        self.shape = Some(polygon);
        self
    }

    /// Configures the location of the object's center
    pub fn location(&mut self, location: Point) -> (builder: &mut Self)
        ensures
            (*builder)@ == (ObjectBuilderSettings { location: Some(location), ..old(self)@ }),
            final(self)@ == final(builder)@,
    {
        self.location = Some(location);
        self
    }

    /// Configures the mobility of the object
    pub fn mobility(&mut self, mobility: Mobility) -> (builder: &mut Self)
        ensures
            (*builder)@ == (ObjectBuilderSettings { mobility: Some(mobility), ..old(self)@ }),
            final(self)@ == final(builder)@,
    {
        self.mobility = Some(mobility);
        self
    }

    /// Configures the rotation of the object
    pub fn rotation(&mut self, rotation: Radians) -> (builder: &mut Self)
        ensures
            (*builder)@ == (ObjectBuilderSettings { rotation: Some(rotation), ..old(self)@ }),
            final(self)@ == final(builder)@,
    {
        self.rotation = Some(rotation);
        self
    }

    /// Configures whether the object is passable
    pub fn passable(&mut self, passable: bool) -> (builder: &mut Self)
        ensures
            (*builder)@ == (ObjectBuilderSettings { passable, ..old(self)@ }),
            final(self)@ == final(builder)@,
    {
        self.passable = passable;
        self
    }

    /// Configures the data associated with the object
    pub fn associated_data(&mut self, associated_data: Vec<u8>) -> (builder: &mut Self)
        ensures
            (*builder)@ == (ObjectBuilderSettings { associated_data: associated_data@, ..old(self)@ }),
            final(self)@ == final(builder)@,
    {
        self.associated_data = associated_data;
        self
    }

    /// Build the [`ObjectDescription`] with all specified settings.
    /// The rotation defaults to zero when it has not been configured.
    ///
    /// # Errors
    /// If a non-optional member has not specified while building
    /// an error is returned, containing flags specifying which
    /// setting has been omitted.
    ///
    /// Building consumes the configured shape, and, as far as they are read, the
    /// rotation, the location and the mobility.
    pub fn build(&mut self) -> (result: Result<ObjectDescription, ObjectBuilderError>)
        ensures
            result is Ok <==> old(self)@.is_complete(),
            result matches Ok(description) ==> old(self)@.describes(description),
            result matches Err(error) ==> error == old(self)@.missing_settings(),
            final(self)@.shape is None,
            final(self)@.rotation == if old(self)@.shape is Some {
                None
            } else {
                old(self)@.rotation
            },
            final(self)@.location == if old(self)@.shape is Some {
                None
            } else {
                old(self)@.location
            },
            final(self)@.mobility == if old(self)@.shape is Some && old(
                self,
            )@.location is Some {
                None
            } else {
                old(self)@.mobility
            },
            final(self)@.passable == old(self)@.passable,
            final(self)@.associated_data == old(self)@.associated_data,
    {
        let error = ObjectBuilderError {
            missing_shape: self.shape.is_none(),
            missing_location: self.location.is_none(),
            missing_mobility: self.mobility.is_none(),
        };
        let shape = match self.shape.take() {
            Some(shape) => shape,
            None => return Err(error),
        };
        let rotation = match self.rotation.take() {
            Some(rotation) => rotation,
            None => default_rotation(),
        };
        let location = match self.location.take() {
            Some(location) => location,
            None => return Err(error),
        };
        let mobility = match self.mobility.take() {
            Some(mobility) => mobility,
            None => return Err(error),
        };
        Ok(
            ObjectDescription {
                shape,
                location,
                rotation,
                mobility,
                passable: self.passable,
                associated_data: self.associated_data.clone(),
            },
        )
    }
}

impl Default for ObjectBuilder {
    /// Creates a builder with no settings configured
    fn default() -> (builder: Self)
        ensures
            builder@.is_empty_builder(),
    {
        ObjectBuilder {
            shape: None,
            location: None,
            rotation: None,
            mobility: None,
            passable: false,
            associated_data: Vec::new(),
        }
    }

}

impl From<ObjectDescription> for ObjectBuilder {
    fn from(object_description: ObjectDescription) -> (builder: Self)
        ensures
            builder == ObjectBuilder::from_description(object_description),
    {
        let ObjectDescription { shape, location, rotation, mobility, passable, associated_data } =
            object_description;
        ObjectBuilder {
            shape: Some(shape),
            location: Some(location),
            rotation: Some(rotation),
            mobility: Some(mobility),
            passable,
            associated_data,
        }
    }
}

impl vstd::std_specs::convert::FromSpecImpl<ObjectDescription> for ObjectBuilder {
    open spec fn obeys_from_spec() -> bool {
        true
    }

    open spec fn from_spec(object_description: ObjectDescription) -> ObjectBuilder {
        ObjectBuilder::from_description(object_description)
    }
}

/// A builder made from a description is complete and builds exactly that description back.
pub proof fn law_builder_from_description_rebuilds_it(description: ObjectDescription)
    ensures
        ObjectBuilder::from_description(description)@.is_complete(),
        ObjectBuilder::from_description(description)@.describes(description),
        ObjectBuilder::from_description(description)@.rotation == Some(description.rotation),
{
}

} // verus!

//! The closed sets of port and sensor-type identifiers.
//!
//! Ports and sensor types are named by fixed tokens on the filesystem; here
//! they are enumerated variants, each knowing its token, so that no raw
//! string constants spread through the binding layer.

use vstd::prelude::*;

verus! {

/// A logical input (sensor) port. `Auto` stands for "any port": its token is
/// empty and constrains nothing on port identity.
#[derive(Clone, Copy, Debug, PartialEq, Eq, Structural)]
pub enum InputPort {
    Auto,
    In1,
    In2,
    In3,
    In4,
}

impl InputPort {
    /// The port's token as the `port_name` attribute carries it.
    pub open spec fn spec_name(self) -> Seq<char> {
        match self {
            InputPort::Auto => ""@,
            InputPort::In1 => "in1"@,
            InputPort::In2 => "in2"@,
            InputPort::In3 => "in3"@,
            InputPort::In4 => "in4"@,
        }
    }

    /// The port's token as the `port_name` attribute carries it.
    pub fn name(&self) -> (r: &'static str)
        ensures
            r@ == self.spec_name(),
    {
        match self {
            InputPort::Auto => "",
            InputPort::In1 => "in1",
            InputPort::In2 => "in2",
            InputPort::In3 => "in3",
            InputPort::In4 => "in4",
        }
    }
}

/// A logical output (motor) port. `Auto` stands for "any port": its token is
/// empty and constrains nothing on port identity.
#[derive(Clone, Copy, Debug, PartialEq, Eq, Structural)]
pub enum OutputPort {
    Auto,
    OutA,
    OutB,
    OutC,
    OutD,
}

impl OutputPort {
    /// The port's token as the `port_name` attribute carries it.
    pub open spec fn spec_name(self) -> Seq<char> {
        match self {
            OutputPort::Auto => ""@,
            OutputPort::OutA => "outA"@,
            OutputPort::OutB => "outB"@,
            OutputPort::OutC => "outC"@,
            OutputPort::OutD => "outD"@,
        }
    }

    /// The port's token as the `port_name` attribute carries it.
    pub fn name(&self) -> (r: &'static str)
        ensures
            r@ == self.spec_name(),
    {
        match self {
            OutputPort::Auto => "",
            OutputPort::OutA => "outA",
            OutputPort::OutB => "outB",
            OutputPort::OutC => "outC",
            OutputPort::OutD => "outD",
        }
    }
}

/// A known sensor driver, named as the `name` attribute of its device
/// directory carries it.
#[derive(Clone, Copy, Debug, PartialEq, Eq, Structural)]
pub enum SensorType {
    Ev3Touch,
    Ev3Color,
    Ev3Ultrasonic,
    Ev3Gyro,
    Ev3Infrared,
    NxtTouch,
    NxtLight,
    NxtSound,
    NxtUltrasonic,
    NxtI2cSensor,
    NxtAnalog,
}

impl SensorType {
    /// The driver's token as the `name` attribute carries it.
    pub open spec fn spec_driver_name(self) -> Seq<char> {
        match self {
            SensorType::Ev3Touch => "lego-ev3-touch"@,
            SensorType::Ev3Color => "lego-ev3-color"@,
            SensorType::Ev3Ultrasonic => "lego-ev3-us"@,
            SensorType::Ev3Gyro => "lego-ev3-gyro"@,
            SensorType::Ev3Infrared => "lego-ev3-ir"@,
            SensorType::NxtTouch => "lego-nxt-touch"@,
            SensorType::NxtLight => "lego-nxt-light"@,
            SensorType::NxtSound => "lego-nxt-sound"@,
            SensorType::NxtUltrasonic => "lego-nxt-us"@,
            SensorType::NxtI2cSensor => "nxt-i2c-sensor"@,
            SensorType::NxtAnalog => "nxt-analog"@,
        }
    }

    /// The driver's token as the `name` attribute carries it.
    pub fn driver_name(&self) -> (r: &'static str)
        ensures
            r@ == self.spec_driver_name(),
    {
        match self {
            SensorType::Ev3Touch => "lego-ev3-touch",
            SensorType::Ev3Color => "lego-ev3-color",
            SensorType::Ev3Ultrasonic => "lego-ev3-us",
            SensorType::Ev3Gyro => "lego-ev3-gyro",
            SensorType::Ev3Infrared => "lego-ev3-ir",
            SensorType::NxtTouch => "lego-nxt-touch",
            SensorType::NxtLight => "lego-nxt-light",
            SensorType::NxtSound => "lego-nxt-sound",
            SensorType::NxtUltrasonic => "lego-nxt-us",
            SensorType::NxtI2cSensor => "nxt-i2c-sensor",
            SensorType::NxtAnalog => "nxt-analog",
        }
    }
}

} // verus!

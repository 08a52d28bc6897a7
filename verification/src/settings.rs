//! The settings that the management protocol names.

use vstd::prelude::*;

use crate::ids::HostId;

verus! {

/// A setting.
#[derive(Clone, Copy, Debug, PartialEq, Eq, Structural)]
pub enum SettingId {
    AutoReconnect,
    MouseSensitivityPercent,
}

impl SettingId {
    /// The number that stands for the setting.
    pub open spec fn number(self) -> u16 {
        match self {
            SettingId::AutoReconnect => 1,
            SettingId::MouseSensitivityPercent => 2,
        }
    }

    /// The setting that a number stands for.
    pub open spec fn of_number(value: u16) -> Option<SettingId> {
        if value == 1 {
            Some(SettingId::AutoReconnect)
        } else if value == 2 {
            Some(SettingId::MouseSensitivityPercent)
        } else {
            None
        }
    }

    /// The number that stands for the setting.
    pub fn to_u16(self) -> (r: u16)
        ensures
            r == self.number(),
    {
        match self {
            Self::AutoReconnect => 1,
            Self::MouseSensitivityPercent => 2,
        }
    }

    /// The setting that a number stands for.
    pub fn from_u16(value: u16) -> (r: Option<Self>)
        ensures
            r == SettingId::of_number(value),
    {
        match value {
            1 => Some(Self::AutoReconnect),
            2 => Some(Self::MouseSensitivityPercent),
            _ => None,
        }
    }
}

/// What a setting is for.
#[derive(Clone, Copy, Debug, PartialEq, Eq, Structural)]
pub enum SettingTarget {
    Global,
    Host(HostId),
}

/// What an input device's reports are changed by.
#[derive(Clone, Copy, Debug, PartialEq, Eq, Structural)]
pub struct InputSettings {
    pub keyboard_layout: u8,
    pub remap_from_usage: u8,
    pub remap_to_usage: u8,
    pub consumer_from_usage: u16,
    pub consumer_to_usage: u16,
    pub mouse_sensitivity_percent: u16,
    pub scroll_multiplier_percent: u16,
}

impl InputSettings {
    /// The settings that change nothing.
    pub open spec fn plain() -> InputSettings {
        InputSettings {
            keyboard_layout: 0,
            remap_from_usage: 0,
            remap_to_usage: 0,
            consumer_from_usage: 0,
            consumer_to_usage: 0,
            mouse_sensitivity_percent: 100,
            scroll_multiplier_percent: 100,
        }
    }
}

impl Default for InputSettings {
    fn default() -> (r: Self)
        ensures
            r == InputSettings::plain(),
    {
        Self {
            keyboard_layout: 0,
            remap_from_usage: 0,
            remap_to_usage: 0,
            consumer_from_usage: 0,
            consumer_to_usage: 0,
            mouse_sensitivity_percent: 100,
            scroll_multiplier_percent: 100,
        }
    }
}

/// A number stands for one setting, and a setting has one number: the first
/// setting is number 1, the second number 2, and no other number is one.
pub proof fn law_settings_are_numbered(setting: SettingId, value: u16)
    ensures
        SettingId::of_number(setting.number()) == Some(setting),
        SettingId::of_number(value) == Some(setting) ==> value == setting.number(),
        SettingId::of_number(value) is Some <==> 1 <= value <= 2,
        setting.number() == 1 <==> setting is AutoReconnect,
{
}

} // verus!

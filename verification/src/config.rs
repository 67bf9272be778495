use vstd::prelude::*;
use crate::SCALE;
use crate::curves::{TURN, UNITS_PER_DEGREE};

verus! {

/// Which of the three density components a parameter set describes.
#[derive(Clone, Copy, PartialEq, Eq, Structural, Debug)]
pub enum ComponentType {
    Disk,
    Dust,
    Stars,
}

/// One arm slot of the configuration UI: whether the slot is active
/// and its angular position in whole degrees.
#[derive(Clone, Copy, PartialEq, Eq, Structural, Debug)]
pub struct ArmConfig {
    pub enabled: bool,
    pub offset: u32,
}

impl ArmConfig {
    /// An arm offset is a whole number of degrees within one turn.
    pub open spec fn wf(self) -> bool {
        self.offset < 360
    }
}

/// Shape parameters of one density component.  All fractional values
/// are fixed-point counts of millionths; angles are in angle units.
/// The noise fields are carried for the renderer's procedural-noise
/// stage and play no part in the density value itself.
#[derive(Clone, Copy, Debug)]
pub struct ComponentConfig {
    pub component_type: ComponentType,
    pub enabled: bool,
    pub strength: u64,
    pub arm_width: u64,
    pub y_thickness: u64,
    pub radial_extent: u64,
    pub radial_dropoff: u64,
    pub angular_offset: u64,
    pub noise_winding_factor: u64,
    pub noise_scale: u64,
    pub noise_offset: i64,
    pub noise_tilt: i64,
    pub noise_persistence: u64,
    pub noise_octaves: u32,
    pub noise_enabled: bool,
}

impl ComponentConfig {
    /// Bounds under which every density computation stays in range.
    pub open spec fn wf(self) -> bool {
        &&& self.strength <= 2_000_000_000
        &&& self.arm_width <= 2 * SCALE
        &&& self.y_thickness <= SCALE
        &&& self.radial_extent <= SCALE
        &&& self.radial_dropoff <= SCALE
        &&& self.angular_offset < TURN
    }
}

impl Default for ComponentConfig {
    /// The disk-flavoured base component of the configuration UI.
    fn default() -> (c: ComponentConfig)
        ensures
            c.wf(),
            c.component_type == ComponentType::Disk,
            c.enabled,
            c.strength == SCALE,
            c.arm_width == 2 * SCALE,
            c.y_thickness == 1_000,
            c.radial_extent == 500_000,
            c.radial_dropoff == 100_000,
            c.angular_offset == 0,
            c.noise_winding_factor == 500_000,
            c.noise_scale == SCALE,
            c.noise_offset == 0,
            c.noise_tilt == SCALE,
            c.noise_persistence == SCALE,
            c.noise_octaves == 5,
            c.noise_enabled,
    {
        ComponentConfig {
            component_type: ComponentType::Disk,
            enabled: true,
            strength: SCALE,
            // the base value of ten lies far above the slider maximum
            // of two; the well-formedness bounds clamp it there
            arm_width: 2_000_000,
            y_thickness: 1_000,
            radial_extent: 500_000,
            radial_dropoff: 100_000,
            angular_offset: 0,
            noise_winding_factor: 500_000,
            noise_scale: SCALE,
            noise_offset: 0,
            noise_tilt: 1_000_000,
            noise_persistence: SCALE,
            noise_octaves: 5,
            noise_enabled: true,
        }
    }
}

/// Galaxy-wide parameters.  `generation` is the staleness stamp: the
/// single writer bumps it on every effective edit, and the baker and
/// the star scheduler compare it against the generation they last
/// consumed.
#[derive(Clone, Debug)]
pub struct GalaxyConfig {
    pub generation: i64,
    pub radius: u64,
    pub n_arms: u64,
    pub arm_offsets: Vec<u64>,
    pub winding_b: u64,
    pub winding_n: u64,
    pub spacing: u64,
    pub arm_configs: Vec<ArmConfig>,
    pub bulge_strength: u64,
    pub bulge_radius: u64,
    pub bulge_intensity: u64,
    pub stars_per_arm: u64,
    pub disk_params: ComponentConfig,
    pub dust_params: ComponentConfig,
    pub stars_params: ComponentConfig,
}

impl GalaxyConfig {
    /// Bounds under which every density computation stays in range.
    pub open spec fn wf(self) -> bool {
        &&& self.radius <= 1_000_000_000
        &&& self.winding_b <= 1_000_000_000_000
        &&& self.winding_n <= 1_000_000_000
        &&& self.n_arms <= 4
        &&& self.arm_offsets@.len() == 4
        &&& forall|i: int| 0 <= i < 4 ==> #[trigger] self.arm_offsets@[i] < TURN
        &&& self.arm_configs@.len() == 4
        &&& forall|i: int| 0 <= i < 4 ==> (#[trigger] self.arm_configs@[i]).wf()
        &&& self.stars_per_arm <= 100_000_000
        &&& self.disk_params.wf()
        &&& self.dust_params.wf()
        &&& self.stars_params.wf()
    }

    /// Record an effective parameter edit by advancing the staleness
    /// stamp; everything else is left as it stands.
    pub fn bump_generation(&mut self)
        requires
            old(self).generation < i64::MAX,
        ensures
            final(self).generation == old(self).generation + 1,
            final(self).radius == old(self).radius,
            final(self).n_arms == old(self).n_arms,
            final(self).arm_offsets@ == old(self).arm_offsets@,
            final(self).winding_b == old(self).winding_b,
            final(self).winding_n == old(self).winding_n,
            final(self).spacing == old(self).spacing,
            final(self).arm_configs@ == old(self).arm_configs@,
            final(self).bulge_strength == old(self).bulge_strength,
            final(self).bulge_radius == old(self).bulge_radius,
            final(self).bulge_intensity == old(self).bulge_intensity,
            final(self).stars_per_arm == old(self).stars_per_arm,
            final(self).disk_params == old(self).disk_params,
            final(self).dust_params == old(self).dust_params,
            final(self).stars_params == old(self).stars_params,
            old(self).wf() ==> final(self).wf(),
    {
        self.generation = self.generation + 1;
    }

    /// Rebuild `arm_offsets` and `n_arms` from the arm slots: the
    /// offsets of the enabled slots, in slot order, packed to the
    /// front; entries beyond `n_arms` keep their old value.
    pub fn update_arms(&mut self)
        requires
            old(self).wf(),
        ensures
            final(self).wf(),
            final(self).n_arms == spec_enabled_arm_units(old(self).arm_configs@).len(),
            final(self).arm_offsets@.take(final(self).n_arms as int)
                == spec_enabled_arm_units(old(self).arm_configs@),
            final(self).arm_offsets@.len() == 4,
            forall|j: int| final(self).n_arms <= j < 4
                ==> #[trigger] final(self).arm_offsets@[j] == old(self).arm_offsets@[j],
            final(self).generation == old(self).generation,
            final(self).radius == old(self).radius,
            final(self).winding_b == old(self).winding_b,
            final(self).winding_n == old(self).winding_n,
            final(self).spacing == old(self).spacing,
            final(self).arm_configs@ == old(self).arm_configs@,
            final(self).bulge_strength == old(self).bulge_strength,
            final(self).bulge_radius == old(self).bulge_radius,
            final(self).bulge_intensity == old(self).bulge_intensity,
            final(self).stars_per_arm == old(self).stars_per_arm,
            final(self).disk_params == old(self).disk_params,
            final(self).dust_params == old(self).dust_params,
            final(self).stars_params == old(self).stars_params,
    {
        let mut arms: usize = 0;
        let mut i: usize = 0;
        while i < 4
            invariant
                old(self).wf(),
                i <= 4,
                arms <= i,
                self.arm_configs@ == old(self).arm_configs@,
                self.arm_offsets@.len() == 4,
                arms == spec_enabled_arm_units(old(self).arm_configs@.take(i as int)).len(),
                self.arm_offsets@.take(arms as int)
                    == spec_enabled_arm_units(old(self).arm_configs@.take(i as int)),
                forall|j: int| arms <= j < 4
                    ==> #[trigger] self.arm_offsets@[j] == old(self).arm_offsets@[j],
                forall|j: int| 0 <= j < 4 ==> #[trigger] self.arm_offsets@[j] < TURN,
                self.generation == old(self).generation,
                self.radius == old(self).radius,
                self.winding_b == old(self).winding_b,
                self.winding_n == old(self).winding_n,
                self.n_arms == old(self).n_arms,
                self.spacing == old(self).spacing,
                self.bulge_strength == old(self).bulge_strength,
                self.bulge_radius == old(self).bulge_radius,
                self.bulge_intensity == old(self).bulge_intensity,
                self.stars_per_arm == old(self).stars_per_arm,
                self.disk_params == old(self).disk_params,
                self.dust_params == old(self).dust_params,
                self.stars_params == old(self).stars_params,
            decreases 4 - i,
        {
            let ui = self.arm_configs[i];
            proof {
                assert(old(self).arm_configs@.take(i + 1 as int)
                    == old(self).arm_configs@.take(i as int).push(ui));
                assert(old(self).arm_configs@.take(i + 1 as int).drop_last()
                    == old(self).arm_configs@.take(i as int));
            }
            if ui.enabled {
                let units = (ui.offset as u64) * UNITS_PER_DEGREE;
                self.arm_offsets.set(arms, units);
                arms = arms + 1;
            }
            i = i + 1;
            proof {
                assert(self.arm_offsets@.take(arms as int)
                    =~= spec_enabled_arm_units(old(self).arm_configs@.take(i as int)));
            }
        }
        proof {
            assert(old(self).arm_configs@.take(4) == old(self).arm_configs@);
        }
        self.n_arms = arms as u64;
    }
}

/// The angular positions, in angle units, of the enabled arm slots,
/// in slot order.
pub open spec fn spec_enabled_arm_units(cfgs: Seq<ArmConfig>) -> Seq<u64>
    decreases cfgs.len(),
{
    if cfgs.len() == 0 {
        Seq::empty()
    } else if cfgs.last().enabled {
        spec_enabled_arm_units(cfgs.drop_last()).push(
            (cfgs.last().offset * UNITS_PER_DEGREE) as u64)
    } else {
        spec_enabled_arm_units(cfgs.drop_last())
    }
}

/// Settings of the renderer-facing bake: texture resolution, halo
/// padding, and pass-through display options.
#[derive(Clone, Copy, Debug)]
pub struct GalaxyRenderConfig {
    pub raymarch_steps: u32,
    pub draw_volume_to_background: bool,
    pub texture_dimension: u32,
    pub diagnostic_mode: bool,
    pub draw_stars_to_background: bool,
    pub padding_coeff: u64,
    pub exposure: u64,
}

impl GalaxyRenderConfig {
    /// Bounds under which texel coordinates stay in range.
    pub open spec fn wf(self) -> bool {
        &&& self.texture_dimension <= 8192
        &&& self.padding_coeff <= 16 * SCALE
    }
}

impl Default for GalaxyRenderConfig {
    fn default() -> (c: GalaxyRenderConfig)
        ensures
            c.wf(),
            c.raymarch_steps == 128,
            c.draw_volume_to_background,
            c.texture_dimension == 512,
            !c.diagnostic_mode,
            !c.draw_stars_to_background,
            c.padding_coeff == 1_500_000,
            c.exposure == 10_000,
    {
        GalaxyRenderConfig {
            raymarch_steps: 128,
            draw_volume_to_background: true,
            texture_dimension: 512,
            diagnostic_mode: false,
            draw_stars_to_background: false,
            padding_coeff: 1_500_000,
            exposure: 10_000,
        }
    }
}

impl Default for GalaxyConfig {
    /// The three-armed default galaxy of the configuration UI.
    fn default() -> (c: GalaxyConfig)
        ensures
            c.wf(),
            c.generation == 1,
            c.radius == 500 * SCALE,
            c.n_arms == 3,
            c.arm_offsets@ =~= seq![0u64, 270_000u64, 540_000u64, 810_000u64],
            c.winding_b == 500_000,
            c.winding_n == 4 * SCALE,
            c.spacing == 40 * SCALE,
            c.stars_per_arm == 10_000,
            c.bulge_strength == 100 * SCALE,
            c.bulge_radius == 9 * SCALE,
            c.bulge_intensity == SCALE,
            c.disk_params.component_type == ComponentType::Disk,
            c.disk_params.strength == 900 * SCALE,
            c.disk_params.arm_width == 300_000,
            c.disk_params.y_thickness == 20_000,
            c.disk_params.radial_dropoff == 50_000,
            c.disk_params.radial_extent == 400_000,
            c.disk_params.angular_offset == 0,
            c.dust_params.component_type == ComponentType::Dust,
            c.dust_params.strength == 900 * SCALE,
            c.dust_params.arm_width == 250_000,
            c.dust_params.y_thickness == 20_000,
            c.dust_params.radial_extent == 450_000,
            c.dust_params.radial_dropoff == 50_000,
            c.dust_params.angular_offset == 945_000,
            c.stars_params.component_type == ComponentType::Stars,
            c.stars_params.strength == 900 * SCALE,
            c.stars_params.arm_width == 300_000,
            c.stars_params.y_thickness == 20_000,
            c.stars_params.radial_dropoff == 50_000,
            c.stars_params.radial_extent == 400_000,
            c.stars_params.angular_offset == 0,
            c.disk_params.enabled && c.dust_params.enabled && c.stars_params.enabled,
    {
        let base = ComponentConfig::default();
        let disk = ComponentConfig {
            component_type: ComponentType::Disk,
            strength: 900 * SCALE,
            arm_width: 300_000,
            y_thickness: 20_000,
            radial_dropoff: 50_000,
            radial_extent: 400_000,
            noise_octaves: 10,
            noise_tilt: 300_000,
            noise_winding_factor: 100_000,
            ..base
        };
        let dust = ComponentConfig {
            component_type: ComponentType::Dust,
            strength: 900 * SCALE,
            arm_width: 250_000,
            y_thickness: 20_000,
            radial_extent: 450_000,
            radial_dropoff: 50_000,
            noise_scale: 6 * SCALE,
            // minus forty-five degrees, as a positive angle
            angular_offset: 945_000,
            noise_offset: SCALE as i64,
            noise_octaves: 5,
            noise_winding_factor: 250_000,
            ..base
        };
        let stars = ComponentConfig {
            component_type: ComponentType::Stars,
            strength: 900 * SCALE,
            arm_width: 300_000,
            y_thickness: 20_000,
            radial_dropoff: 50_000,
            radial_extent: 400_000,
            noise_octaves: 10,
            noise_tilt: 300_000,
            noise_winding_factor: 100_000,
            ..base
        };
        let mut arm_offsets: Vec<u64> = Vec::new();
        arm_offsets.push(0);
        arm_offsets.push(270_000);
        arm_offsets.push(540_000);
        arm_offsets.push(810_000);
        let mut arm_configs: Vec<ArmConfig> = Vec::new();
        arm_configs.push(ArmConfig { enabled: true, offset: 0 });
        arm_configs.push(ArmConfig { enabled: false, offset: 90 });
        arm_configs.push(ArmConfig { enabled: true, offset: 180 });
        arm_configs.push(ArmConfig { enabled: false, offset: 270 });
        GalaxyConfig {
            generation: 1,
            radius: 500 * SCALE,
            n_arms: 3,
            arm_offsets,
            winding_b: 500_000,
            winding_n: 4 * SCALE,
            spacing: 40 * SCALE,
            arm_configs,
            bulge_strength: 100 * SCALE,
            bulge_radius: 9 * SCALE,
            bulge_intensity: SCALE,
            stars_per_arm: 10_000,
            disk_params: disk,
            dust_params: dust,
            stars_params: stars,
        }
    }
}


impl ComponentConfig {
    /// Lower bound of every component field on the configuration UI.
    pub fn min_bounds() -> (c: ComponentConfig)
        ensures
            c.wf(),
            !c.enabled,
            c.strength == 0,
            c.arm_width == 1_000,
            c.y_thickness == 1_000,
            c.radial_extent == 0,
            c.radial_dropoff == 50_000,
            c.angular_offset == crate::curves::HALF_TURN,
    {
        ComponentConfig {
            component_type: ComponentType::Disk,
            enabled: false,
            strength: 0,
            arm_width: 1_000,
            y_thickness: 1_000,
            radial_extent: 0,
            radial_dropoff: 50_000,
            // minus one hundred eighty degrees, as a positive angle
            angular_offset: crate::curves::HALF_TURN,
            noise_winding_factor: 0,
            noise_scale: 500_000,
            noise_offset: -1_000_000,
            noise_tilt: -1_000_000,
            noise_persistence: 100_000,
            noise_octaves: 0,
            noise_enabled: false,
        }
    }

    /// Upper bound of every component field on the configuration UI.
    pub fn max_bounds() -> (c: ComponentConfig)
        ensures
            c.wf(),
            c.enabled,
            c.strength == 2_000_000_000,
            c.arm_width == 2 * SCALE,
            c.y_thickness == 50_000,
            c.radial_extent == SCALE,
            c.radial_dropoff == 600_000,
            c.angular_offset == crate::curves::HALF_TURN,
    {
        ComponentConfig {
            component_type: ComponentType::Disk,
            enabled: true,
            strength: 2_000_000_000,
            arm_width: 2_000_000,
            y_thickness: 50_000,
            radial_extent: 1_000_000,
            radial_dropoff: 600_000,
            angular_offset: crate::curves::HALF_TURN,
            noise_winding_factor: 500_000,
            noise_scale: 10_000_000,
            noise_offset: 1_000_000,
            noise_tilt: 1_000_000,
            noise_persistence: 2_000_000,
            noise_octaves: 10,
            noise_enabled: true,
        }
    }
}

} // verus!

use fraktal::presets::presets;
use fraktal::EngineSettings;

const LEGACY_PRESETS: [&str; 8] = [
    "0:eNptikENACAMA_vAAz4wgAFM4ACZc3WEZMBja9Lk2pyUZXX7g9MSJarDEMx7IuwxNOcNBmUPLg",
    "0:eNpljCsKgEAAREcE81abyWSyi9VgsHkPT2EUD-QeRQTNWg0y7hcW9pV5DMMAxT1_hwSGd1zPFoanQW6NCh0ZIiidlOgoEt9enLxXPUVqddl2hp-1m_zt_R1g",
    "0:eNpli6ENgDAURD8JEgwOPGiCIRg0Dk2YgRnKGDgkmgm-gwG6Rk0nuLZpq_qSS564d8lfjdvH1V0eU6u5W566b975LCgCt5wSsAYR1vfMOwtCbAHCED4GhoAWgg",
    "0:eNpFzDEOQEAQBdBBSDRKsWpRo9dLNG6hcYftlAoHEJ1TiESlWofQOILui-xgkkne_8WP1mo3x2vxHdV2XjPHxSSSMM1J0Ht43uZw0t8PBkuWCCxNtRF6V7s-JL4dABnzBlEkGUA",
    "0:eNpljb8KQFAUxm8UiuyU1SgxGWT1BmbMPIAX8Qhmuz-DzWLyBrp5Ad3xuDhF-S3n19fX-Wpq-ea-jv0yzCzYIjtuDNdsQ2KQG-BcRyE_oBTQnAQmEUNGgEpvXsnoeQep-mjGf2o69o8Cvlse1k8-ySiW",
    "0:eNplii0KgDAAhWfYol0PYBabxZnE4HE07wjiKcyeQBGMRkG7Ybd429hP2QcPPj7e-dFukc9-p9N41D8v-jUr861pGfHAjJIIzN6EwBsqMCRWL-2chYzKXRQs2B1m",
    "0:eNpNirEJgDAURL9oaSUi6ADWYi9i51ZpQ1bIABkgENJlhQyRKktcCORDDg7uHu9z6zzJGPymF4v0nr_Zr2N48kgc1PJVHQ-8BYF9gHA3XABCkBQP",
    "0:eNpljLsNgDAUAw8JQccMrAADwATswCbMwTRQU9FkgLRZwvnpVTnJ8jU2wOzeJxWnDzuFf2PFUE5Pg5auys2kY6j-XaNsKyG7iYkmEPs",
];

#[test]
fn parse_presets() -> Result<(), String> {
    for preset in &presets() {
        EngineSettings::restore(preset.state)
            .ok_or_else(|| format!("Failed to restore preset: {}", preset.name))?;
    }
    Ok(())
}

#[test]
fn parse_legacy_presets() -> Result<(), String> {
    for preset in &LEGACY_PRESETS {
        EngineSettings::restore(preset)
            .ok_or_else(|| format!("Failed to restore legacy preset: {}", preset))?;
    }
    Ok(())
}

#[test]
fn presets_are_canonical() -> Result<(), String> {
    for preset in &presets() {
        let settings = EngineSettings::restore(preset.state).unwrap();
        let serialized = settings.serialize().unwrap();
        assert_eq!(preset.state, serialized, "Preset: {}", preset.name);
    }
    Ok(())
}

#[test]
fn preset_corpus_is_complete() {
    let names: Vec<&str> = presets().iter().map(|p| p.name).collect();
    assert_eq!(
        names,
        vec![
            "Classic",
            "Hyperspace",
            "My burning heart",
            "Poseidon's armory",
            "The Radiance",
            "Singularity",
            "The day they came",
            "Wildfire",
            "Xen lightning",
        ]
    );
}

// The recorded-fingerprint scenarios: one canonical view and every preset,
// computed under a fixed work budget and hashed. The constants are recorded
// against this crate's deterministic scheduler (its queue pops the earliest
// entry among priority ties), so they differ from fingerprints taken over
// any other queue order; the region list is hashed sorted, so only the set
// of remaining regions matters, not the order they are stored in.

use fraktal::presets::presets;
use fraktal::Engine;
use fraktal::EngineSettings;
use std::collections::hash_map::DefaultHasher;
use std::hash::Hash;
use std::hash::Hasher;

fn mandel(cre: f64, cim: f64, limit: u32) -> u32 {
    let mut zre = cre;
    let mut zim = cim;
    let mut i: u32 = 0;
    while i < limit {
        let a2 = zre * zre;
        let b2 = zim * zim;
        if a2 + b2 >= 4.0 {
            return i;
        }
        let nre = a2 - b2 + cre;
        let nim = zre * zim + zim * zre + cim;
        zre = nre;
        zim = nim;
        i += 1;
    }
    limit
}

fn compute_and_render(mut settings: EngineSettings, work_limit: usize) -> u64 {
    let mut engine = Engine::new(&settings);
    engine.apply_settings(&mut settings, None);

    let w = engine.image.width;
    let h = engine.image.height;
    let limit = engine.iteration_limit as u32;
    let center = (
        f64::from_bits(settings.center.current.re),
        f64::from_bits(settings.center.current.im),
    );
    let scale = f64::from_bits(settings.scale.current);
    let tl_re = center.0 - w as f64 / 2.0 * scale;
    let tl_im = center.1 + h as f64 / 2.0 * scale;
    let re_span = w as f64 * scale;
    let im_span = -(h as f64) * scale;
    let check = move |x: i32, y: i32| {
        let cre = tl_re + x as f64 * re_span / w as f64;
        let cim = tl_im + y as f64 * im_span / h as f64;
        mandel(cre, cim, limit)
    };

    engine.compute(work_limit, &check);
    engine.render();

    let mut hasher = DefaultHasher::new();
    engine.image_data().hash(&mut hasher);
    let mut regions: Vec<(i64, i32, i32, i32, i32)> = engine
        .dirty_regions
        .iter()
        .map(|e| (e.d, e.value.x0, e.value.y0, e.value.w, e.value.h))
        .collect();
    regions.len().hash(&mut hasher);
    regions.sort();
    regions.hash(&mut hasher);
    hasher.finish()
}

#[test]
fn render_defaults() {
    let settings = EngineSettings::default();
    let hash = compute_and_render(settings, 1_000_000);
    const EXPECTED_HASH: u64 = 6440149199439867248;

    assert_eq!(hash, EXPECTED_HASH, "Incorrect hash for default settings",);
}

#[test]
fn render_presets() {
    const PRESET_HASHES: &[(&str, u64)] = &[
        ("Classic", 11848762276362820060),
        ("Hyperspace", 3019245217393278542),
        ("My burning heart", 13499425164645547335),
        ("Poseidon's armory", 13198473557169015435),
        ("The Radiance", 9511787713361088254),
        ("Singularity", 7726423810663057101),
        ("The day they came", 15301446301945659452),
        ("Wildfire", 16298061720367697705),
        ("Xen lightning", 7175963806822352523),
    ];

    let corpus = presets();
    assert_eq!(corpus.len(), PRESET_HASHES.len(), "Wrong number of preset hashes");

    let mut mismatches: usize = 0;
    for preset in &corpus {
        let (_, expected_hash) = PRESET_HASHES
            .iter()
            .find(|(name, _)| *name == preset.name)
            .unwrap_or_else(|| panic!("Preset hash not found: {}", preset.name));

        let settings = EngineSettings::restore(preset.state)
            .unwrap()
            .set_size(1920, 1080);

        let hash = compute_and_render(settings, 1_000_000);
        if hash != *expected_hash {
            println!("Incorrect hash for preset {}: {}", preset.name, hash);
            mismatches += 1;
        }
    }
    assert_eq!(mismatches, 0, "Incorrect hash for {} presets", mismatches);
}

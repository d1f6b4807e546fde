//! The canonical corpus of serialized viewpoints that the UI offers as
//! presets.

use vstd::prelude::*;

verus! {

/// A named, serialized viewpoint.
#[derive(Clone, Copy, Debug)]
pub struct Preset {
    pub name: &'static str,
    pub state: &'static str,
}

/// The preset corpus, in menu order: each named viewpoint with its exact
/// serialized state string.
pub fn presets() -> (r: Vec<Preset>)
    ensures
        r@.len() == 9,
        r@[0].name@ == "Classic"@ && r@[0].state@ == "0:eNptisEJACAMA_NwB8dxAZdwA8fsVieCto82ELiEk6rsYTG4bVmiP5iC9U-EOcMBjOYO_A"@,
        r@[1].name@ == "Hyperspace"@ && r@[1].state@ == "0:eNplzCsKgEAUheEjgnmqzWRyC2I1GGzuw1UYxQU5SxFBs1aDnHnDwPzlftxwgOpZ_lMC4zdtVwfb26J0os6cAkmUHjV6iix8b87BzUCRO677wXhTAQL9HS4"@,
        r@[2].name@ == "My burning heart"@ && r@[2].state@ == "0:eNply6ENgDAUhOFHggSDAw8aRzBoHJowAzOUMXBINBM8RwfoGjWd4NqmreqfXPKZu5XU0_5z89Tn3Bse1rcdu2-5KkrBr6QsbBHC-SiCWRDSFyBY0mEWUA"@,
        r@[3].name@ == "Poseidon's armory"@ && r@[3].state@ == "0:eNpFjD0OQEAYRD-ERKMUqxY1B9BLNG6hcYftlAoHEJ1TiESlWofQOIJuRPZvkkneTPGyo73c5d3jQAxj1G95vbIiLStipIO_vhoP2X92FPEGiSdRnIQplNzdHMYD4AOHFRkO"@,
        r@[4].name@ == "The Radiance"@ && r@[4].state@ == "0:eNpljb8KQFAUxm8UiuxuWY1SJoOs3sCMmQfwIh7BbPdnsFlM3kA3L6A7HhenKL_l_Po6fV_NbJ_u69gvw8yDLXLixvJoGxKL3IDgOhr5AaWE5iYwyRhyAkx580pFzztI9Ucz0WmY-H8U8N06Afn7KGQ"@,
        r@[5].name@ == "Singularity"@ && r@[5].state@ == "0:eNpliCEOgCAARTFAtOsBzFaLmJzB42jmCM5TmD2Bzs1odINO4BYfGIPC29729h5Fx93811euy91p3kxH1dZnPzASgZeSDGyxhIBMF5iLkK9rztKGBUGZHTQ"@,
        r@[6].name@ == "The day they came"@ && r@[6].state@ == "0:eNpNirEJwCAURH9IylQhBJIBUmeBIHZuZSuu4AAOIIidKziElUucWHzw4ODu8WQ8982UnC53BFTxKn9_z_K3lTgY5WsnnnlrAvsAoQOiCRPd"@,
        r@[7].name@ == "Wildfire"@ && r@[7].state@ == "0:eNplizsNgDAABY-EwIYGLIAAUIAHnKADNTB36lIBXWvi9ZdOveTl3XIAq_u_dNw-nBTswU5DeSMd2oYqL4uuqbp5ZrVWQhEBThDJ"@,
        r@[8].name@ == "Xen lightning"@ && r@[8].state@ == "0:eNpFjD0OQEAYRLdBJCRKotVqdbJuoXeCjcIdNOIILiBxA4UbUEg0JGgcQDt-PhsvmeTNFFPb81ZYY8tFEHXZztmLCJnDJHiifqVU_r3XSOI1x6STn4OP1CBPqgONSb64HuQnbi7urx5p"@,
{
    let mut r: Vec<Preset> = Vec::new();
    r.push(
        Preset {
            name: "Classic",
            state: "0:eNptisEJACAMA_NwB8dxAZdwA8fsVieCto82ELiEk6rsYTG4bVmiP5iC9U-EOcMBjOYO_A",
        },
    );
    r.push(
        Preset {
            name: "Hyperspace",
            state:
                "0:eNplzCsKgEAUheEjgnmqzWRyC2I1GGzuw1UYxQU5SxFBs1aDnHnDwPzlftxwgOpZ_lMC4zdtVwfb26J0os6cAkmUHjV6iix8b87BzUCRO677wXhTAQL9HS4",
        },
    );
    r.push(
        Preset {
            name: "My burning heart",
            state:
                "0:eNply6ENgDAUhOFHggSDAw8aRzBoHJowAzOUMXBINBM8RwfoGjWd4NqmreqfXPKZu5XU0_5z89Tn3Bse1rcdu2-5KkrBr6QsbBHC-SiCWRDSFyBY0mEWUA",
        },
    );
    r.push(
        Preset {
            name: "Poseidon's armory",
            state:
                "0:eNpFjD0OQEAYRD-ERKMUqxY1B9BLNG6hcYftlAoHEJ1TiESlWofQOIJuRPZvkkneTPGyo73c5d3jQAxj1G95vbIiLStipIO_vhoP2X92FPEGiSdRnIQplNzdHMYD4AOHFRkO",
        },
    );
    r.push(
        Preset {
            name: "The Radiance",
            state:
                "0:eNpljb8KQFAUxm8UiuxuWY1SJoOs3sCMmQfwIh7BbPdnsFlM3kA3L6A7HhenKL_l_Po6fV_NbJ_u69gvw8yDLXLixvJoGxKL3IDgOhr5AaWE5iYwyRhyAkx580pFzztI9Ucz0WmY-H8U8N06Afn7KGQ",
        },
    );
    r.push(
        Preset {
            name: "Singularity",
            state:
                "0:eNpliCEOgCAARTFAtOsBzFaLmJzB42jmCM5TmD2Bzs1odINO4BYfGIPC29729h5Fx93811euy91p3kxH1dZnPzASgZeSDGyxhIBMF5iLkK9rztKGBUGZHTQ",
        },
    );
    r.push(
        Preset {
            name: "The day they came",
            state:
                "0:eNpNirEJwCAURH9IylQhBJIBUmeBIHZuZSuu4AAOIIidKziElUucWHzw4ODu8WQ8982UnC53BFTxKn9_z_K3lTgY5WsnnnlrAvsAoQOiCRPd",
        },
    );
    r.push(
        Preset {
            name: "Wildfire",
            state:
                "0:eNplizsNgDAABY-EwIYGLIAAUIAHnKADNTB36lIBXWvi9ZdOveTl3XIAq_u_dNw-nBTswU5DeSMd2oYqL4uuqbp5ZrVWQhEBThDJ",
        },
    );
    r.push(
        Preset {
            name: "Xen lightning",
            state:
                "0:eNpFjD0OQEAYRLdBJCRKotVqdbJuoXeCjcIdNOIILiBxA4UbUEg0JGgcQDt-PhsvmeTNFFPb81ZYY8tFEHXZztmLCJnDJHiifqVU_r3XSOI1x6STn4OP1CBPqgONSb64HuQnbi7urx5p",
        },
    );
    r
}

} // verus!

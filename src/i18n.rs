//! Messages of the command line in English and French.
use vstd::prelude::*;

verus! {

pub struct Translations {
    pub common: CommonTranslations,
    pub error: ErrorTranslations,
    pub init: InitTranslations,
    pub login: LoginTranslations,
    pub logout: LogoutTranslations,
    pub pull: PullTranslations,
    pub push: PushTranslations,
    pub list: ListTranslations,
    pub whoami: WhoamiTranslations,
    pub watch: WatchTranslations,
    pub run: RunTranslations,
}

pub struct CommonTranslations {
    pub select_workspace: &'static str,
    pub select_project: &'static str,
    pub no_workspaces: &'static str,
    pub no_projects: &'static str,
    pub success: &'static str,
    pub loading: &'static str,
}

pub struct ErrorTranslations {
    pub unauthorized: &'static str,
    pub unknown: &'static str,
    pub not_found: &'static str,
}

pub struct InitTranslations {
    pub title: &'static str,
    pub success: &'static str,
    pub already_initialized: &'static str,
    pub creating_config: &'static str,
}

pub struct LoginTranslations {
    pub success: &'static str,
    pub failed: &'static str,
    pub opening_browser: &'static str,
    pub enter_token: &'static str,
}

pub struct WhoamiTranslations {
    pub not_logged_in: &'static str,
    pub logged_as: &'static str,
    pub title: &'static str,
    pub name: &'static str,
    pub email: &'static str,
    pub last_login: &'static str,
}

pub struct WatchTranslations {
    pub title: &'static str,
    pub sync_start: &'static str,
    pub remote_to_local: &'static str,
    pub local_to_remote: &'static str,
    pub press_ctrl_c: &'static str,
    pub start: &'static str,
    pub connected: &'static str,
    pub disconnected: &'static str,
    pub update_received: &'static str,
}

pub struct RunTranslations {
    pub executing: &'static str,
}

pub struct LogoutTranslations {
    pub success: &'static str,
}

pub struct PullTranslations {
    pub success: &'static str,
    pub failed: &'static str,
}

pub struct PushTranslations {
    pub success: &'static str,
    pub failed: &'static str,
}

pub struct ListTranslations {
    pub no_projects: &'static str,
}

/// The message table of a language: French for `fr`, English for anything else.
pub fn get_translations(lang: &str) -> (r: Translations)
    ensures
        r.common.select_workspace@ == (if lang@ == "fr"@ {
            "Sélectionnez un espace de travail"@
        } else {
            "Select a workspace"@
        }),
        r.common.select_project@ == (if lang@ == "fr"@ {
            "Sélectionnez un projet"@
        } else {
            "Select a project"@
        }),
        r.common.no_workspaces@ == (if lang@ == "fr"@ {
            "Aucun espace de travail trouvé"@
        } else {
            "No workspaces found"@
        }),
        r.common.no_projects@ == (if lang@ == "fr"@ {
            "Aucun projet trouvé dans cet espace"@
        } else {
            "No projects found in this workspace"@
        }),
        r.common.success@ == (if lang@ == "fr"@ {
            "Succès"@
        } else {
            "Success"@
        }),
        r.common.loading@ == (if lang@ == "fr"@ {
            "Chargement..."@
        } else {
            "Loading..."@
        }),
        r.error.unauthorized@ == (if lang@ == "fr"@ {
            "Non autorisé. Veuillez vous connecter."@
        } else {
            "Unauthorized. Please login."@
        }),
        r.error.unknown@ == (if lang@ == "fr"@ {
            "Une erreur inconnue est survenue"@
        } else {
            "An unknown error occurred"@
        }),
        r.error.not_found@ == (if lang@ == "fr"@ {
            "Non trouvé"@
        } else {
            "Not found"@
        }),
        r.init.title@ == (if lang@ == "fr"@ {
            "🚀 Initialisation du projet"@
        } else {
            "🚀 Initialize Project"@
        }),
        r.init.success@ == (if lang@ == "fr"@ {
            "Projet initialisé avec succès"@
        } else {
            "Project initialized successfully"@
        }),
        r.init.already_initialized@ == (if lang@ == "fr"@ {
            "Ce projet est déjà initialisé"@
        } else {
            "Project is already initialized"@
        }),
        r.init.creating_config@ == (if lang@ == "fr"@ {
            "Création de la configuration local..."@
        } else {
            "Creating local configuration..."@
        }),
        r.login.success@ == (if lang@ == "fr"@ {
            "Connexion réussie"@
        } else {
            "Successfully logged in"@
        }),
        r.login.failed@ == (if lang@ == "fr"@ {
            "Échec de la connexion"@
        } else {
            "Login failed"@
        }),
        r.login.opening_browser@ == (if lang@ == "fr"@ {
            "Ouverture du navigateur..."@
        } else {
            "Opening browser..."@
        }),
        r.login.enter_token@ == (if lang@ == "fr"@ {
            "Entrez votre token API :"@
        } else {
            "Enter your API token:"@
        }),
        r.whoami.not_logged_in@ == (if lang@ == "fr"@ {
            "Vous n'êtes pas connecté"@
        } else {
            "You are not logged in"@
        }),
        r.whoami.logged_as@ == (if lang@ == "fr"@ {
            "Connecté en tant que :"@
        } else {
            "Logged in as:"@
        }),
        r.whoami.title@ == (if lang@ == "fr"@ {
            "👤 Utilisateur Actuel"@
        } else {
            "👤 Current User"@
        }),
        r.whoami.name@ == (if lang@ == "fr"@ {
            "  Nom : {}"@
        } else {
            "  Name: {}"@
        }),
        r.whoami.email@ == (if lang@ == "fr"@ {
            "  Email : {}"@
        } else {
            "  Email: {}"@
        }),
        r.whoami.last_login@ == (if lang@ == "fr"@ {
            "  Dernière connexion : {}"@
        } else {
            "  Last login: {}"@
        }),
        r.watch.title@ == (if lang@ == "fr"@ {
            "👁️  Mode Surveillance EnvSafe"@
        } else {
            "👁️  EnvSafe Watch Mode"@
        }),
        r.watch.sync_start@ == (if lang@ == "fr"@ {
            "🔄 Démarrage de la synchronisation bidirectionnelle..."@
        } else {
            "🔄 Starting bidirectional sync..."@
        }),
        r.watch.remote_to_local@ == (if lang@ == "fr"@ {
            "  - Changements distants → Fichier local"@
        } else {
            "  - Remote changes → Local file"@
        }),
        r.watch.local_to_remote@ == (if lang@ == "fr"@ {
            "  - Fichier local → Distant"@
        } else {
            "  - Local file → Remote"@
        }),
        r.watch.press_ctrl_c@ == (if lang@ == "fr"@ {
            "Appuyez sur Ctrl+C pour arrêter"@
        } else {
            "Press Ctrl+C to stop watching"@
        }),
        r.watch.start@ == (if lang@ == "fr"@ {
            "Démarrage du mode surveillance..."@
        } else {
            "Starting watch mode..."@
        }),
        r.watch.connected@ == (if lang@ == "fr"@ {
            "Connecté au serveur de mise à jour"@
        } else {
            "Connected to update server"@
        }),
        r.watch.disconnected@ == (if lang@ == "fr"@ {
            "Déconnecté du serveur"@
        } else {
            "Disconnected from server"@
        }),
        r.watch.update_received@ == (if lang@ == "fr"@ {
            "Mise à jour reçue"@
        } else {
            "Update received"@
        }),
        r.run.executing@ == (if lang@ == "fr"@ {
            "Exécution de la commande avec les variables injectées..."@
        } else {
            "Executing command with injected variables..."@
        }),
        r.logout.success@ == (if lang@ == "fr"@ {
            "Déconnexion réussie"@
        } else {
            "Successfully logged out"@
        }),
        r.pull.success@ == (if lang@ == "fr"@ {
            "Variables téléchargées avec succès"@
        } else {
            "Variables pulled successfully"@
        }),
        r.pull.failed@ == (if lang@ == "fr"@ {
            "Échec du téléchargement"@
        } else {
            "Failed to pull variables"@
        }),
        r.push.success@ == (if lang@ == "fr"@ {
            "Variables envoyées avec succès"@
        } else {
            "Variables pushed successfully"@
        }),
        r.push.failed@ == (if lang@ == "fr"@ {
            "Échec de l'envoi"@
        } else {
            "Failed to push variables"@
        }),
        r.list.no_projects@ == (if lang@ == "fr"@ {
            "Aucun projet trouvé"@
        } else {
            "No projects found"@
        }),
{
    let is_french = String::from_str(lang) == String::from_str("fr");
    if is_french {
        Translations {
            common: CommonTranslations {
                select_workspace: "Sélectionnez un espace de travail",
                select_project: "Sélectionnez un projet",
                no_workspaces: "Aucun espace de travail trouvé",
                no_projects: "Aucun projet trouvé dans cet espace",
                success: "Succès",
                loading: "Chargement...",
            },
            error: ErrorTranslations {
                unauthorized: "Non autorisé. Veuillez vous connecter.",
                unknown: "Une erreur inconnue est survenue",
                not_found: "Non trouvé",
            },
            init: InitTranslations {
                title: "🚀 Initialisation du projet",
                success: "Projet initialisé avec succès",
                already_initialized: "Ce projet est déjà initialisé",
                creating_config: "Création de la configuration local...",
            },
            login: LoginTranslations {
                success: "Connexion réussie",
                failed: "Échec de la connexion",
                opening_browser: "Ouverture du navigateur...",
                enter_token: "Entrez votre token API :",
            },
            whoami: WhoamiTranslations {
                not_logged_in: "Vous n'êtes pas connecté",
                logged_as: "Connecté en tant que :",
                title: "👤 Utilisateur Actuel",
                name: "  Nom : {}",
                email: "  Email : {}",
                last_login: "  Dernière connexion : {}",
            },
            watch: WatchTranslations {
                title: "👁️  Mode Surveillance EnvSafe",
                sync_start: "🔄 Démarrage de la synchronisation bidirectionnelle...",
                remote_to_local: "  - Changements distants → Fichier local",
                local_to_remote: "  - Fichier local → Distant",
                press_ctrl_c: "Appuyez sur Ctrl+C pour arrêter",
                start: "Démarrage du mode surveillance...",
                connected: "Connecté au serveur de mise à jour",
                disconnected: "Déconnecté du serveur",
                update_received: "Mise à jour reçue",
            },
            run: RunTranslations {
                executing: "Exécution de la commande avec les variables injectées...",
            },
            logout: LogoutTranslations {
                success: "Déconnexion réussie",
            },
            pull: PullTranslations {
                success: "Variables téléchargées avec succès",
                failed: "Échec du téléchargement",
            },
            push: PushTranslations {
                success: "Variables envoyées avec succès",
                failed: "Échec de l'envoi",
            },
            list: ListTranslations {
                no_projects: "Aucun projet trouvé",
            },
        }
    } else {
        Translations {
            common: CommonTranslations {
                select_workspace: "Select a workspace",
                select_project: "Select a project",
                no_workspaces: "No workspaces found",
                no_projects: "No projects found in this workspace",
                success: "Success",
                loading: "Loading...",
            },
            error: ErrorTranslations {
                unauthorized: "Unauthorized. Please login.",
                unknown: "An unknown error occurred",
                not_found: "Not found",
            },
            init: InitTranslations {
                title: "🚀 Initialize Project",
                success: "Project initialized successfully",
                already_initialized: "Project is already initialized",
                creating_config: "Creating local configuration...",
            },
            login: LoginTranslations {
                success: "Successfully logged in",
                failed: "Login failed",
                opening_browser: "Opening browser...",
                enter_token: "Enter your API token:",
            },
            whoami: WhoamiTranslations {
                not_logged_in: "You are not logged in",
                logged_as: "Logged in as:",
                title: "👤 Current User",
                name: "  Name: {}",
                email: "  Email: {}",
                last_login: "  Last login: {}",
            },
            watch: WatchTranslations {
                title: "👁️  EnvSafe Watch Mode",
                sync_start: "🔄 Starting bidirectional sync...",
                remote_to_local: "  - Remote changes → Local file",
                local_to_remote: "  - Local file → Remote",
                press_ctrl_c: "Press Ctrl+C to stop watching",
                start: "Starting watch mode...",
                connected: "Connected to update server",
                disconnected: "Disconnected from server",
                update_received: "Update received",
            },
            run: RunTranslations {
                executing: "Executing command with injected variables...",
            },
            logout: LogoutTranslations {
                success: "Successfully logged out",
            },
            pull: PullTranslations {
                success: "Variables pulled successfully",
                failed: "Failed to pull variables",
            },
            push: PushTranslations {
                success: "Variables pushed successfully",
                failed: "Failed to push variables",
            },
            list: ListTranslations {
                no_projects: "No projects found",
            },
        }
    }
}

} // verus!

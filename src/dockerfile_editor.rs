use vstd::prelude::*;
use vstd::string::*;

verus! {

/// What the editor shows for one instruction keyword.
#[derive(Debug)]
pub struct DockerfileCommand {
    pub description: String,
    pub side_effect: String,
    pub example: String,
}

/// The editor's help for each instruction keyword: keyword, description, side effect
/// and example.
pub open spec fn command_table() -> Seq<(Seq<char>, Seq<char>, Seq<char>, Seq<char>)> {
    seq![
        ("FROM"@, "Sets the base image for subsequent instructions."@, "Creates a new build stage and sets the base image."@, "FROM ubuntu:20.04"@),
        ("RUN"@, "Executes commands in a new layer on top of the current image."@, "Creates a new layer in the image with the results of the command."@, "RUN apt-get update && apt-get install -y curl"@),
        ("CMD"@, "Provides default commands for an executing container."@, "Sets the command to run when the container starts."@, "CMD [\"echo\", \"Hello World\"]"@),
        ("LABEL"@, "Adds metadata to an image as key-value pairs."@, "Adds metadata to the image."@, "LABEL version=\"1.0\" description=\"This is my container\""@),
        ("EXPOSE"@, "Informs Docker that the container listens on the specified network ports at runtime."@, "Documents which ports are intended to be published."@, "EXPOSE 80/tcp"@),
        ("ENV"@, "Sets environment variables for subsequent instructions."@, "Sets environment variables that persist when a container is run."@, "ENV PATH=/usr/local/bin:$PATH"@),
        ("ADD"@, "Copies new files, directories, or remote file URLs to the filesystem of the container."@, "Adds files to the image, can unpack compressed files and fetch remote URLs."@, "ADD hom* /mydir/"@),
        ("COPY"@, "Copies new files or directories to the filesystem of the container."@, "Adds files to the image (simpler than ADD, preferred for most cases)."@, "COPY . /app"@),
        ("ENTRYPOINT"@, "Configures a container to run as an executable."@, "Sets the primary command that is executed when the container starts."@, "ENTRYPOINT [\"nginx\", \"-g\", \"daemon off;\"]"@),
        ("VOLUME"@, "Creates a mount point with the specified name."@, "Creates a mount point and marks it to hold externally mounted volumes."@, "VOLUME [\"/data\"]"@),
        ("USER"@, "Sets the user name or UID to use when running the image."@, "Changes the user for subsequent instructions and when running the container."@, "USER www-data"@),
        ("WORKDIR"@, "Sets the working directory for subsequent instructions."@, "Changes the working directory for subsequent instructions and when running the container."@, "WORKDIR /app"@),
        ("ARG"@, "Defines a variable that users can pass at build-time."@, "Defines a build-time variable that can be passed with docker build --build-arg."@, "ARG VERSION=latest"@),
        ("ONBUILD"@, "Adds a trigger instruction to be executed when the image is used as the base for another build."@, "Registers a build instruction to be executed later, when the image is used as a base."@, "ONBUILD ADD . /app/src"@),
        ("STOPSIGNAL"@, "Sets the system call signal that will be sent to the container to exit."@, "Sets the signal that will be used to stop the container."@, "STOPSIGNAL SIGTERM"@),
        ("HEALTHCHECK"@, "Tells Docker how to test a container to check that it is still working."@, "Configures a command to run periodically to check container health."@, "HEALTHCHECK --interval=5m --timeout=3s CMD curl -f http://localhost/ || exit 1"@),
        ("SHELL"@, "Overrides the default shell used for the shell form of commands."@, "Changes the default shell used for shell commands."@, "SHELL [\"/bin/bash\", \"-c\"]"@),
    ]
}

pub open spec fn command_views(v: Seq<(String, DockerfileCommand)>) -> Seq<(Seq<char>, Seq<char>, Seq<char>, Seq<char>)> {
    v.map_values(
        |e: (String, DockerfileCommand)| (e.0@, e.1.description@, e.1.side_effect@, e.1.example@),
    )
}

/// The editor's help for every Dockerfile instruction keyword, one entry per keyword.
pub fn get_dockerfile_commands() -> (r: Vec<(String, DockerfileCommand)>)
    ensures
        command_views(r@) == command_table(),
{
    let mut v: Vec<(String, DockerfileCommand)> = Vec::new();
    v.push((
        String::from_str("FROM"),
        DockerfileCommand {
            description: String::from_str("Sets the base image for subsequent instructions."),
            side_effect: String::from_str("Creates a new build stage and sets the base image."),
            example: String::from_str("FROM ubuntu:20.04"),
        },
    ));
    v.push((
        String::from_str("RUN"),
        DockerfileCommand {
            description: String::from_str("Executes commands in a new layer on top of the current image."),
            side_effect: String::from_str("Creates a new layer in the image with the results of the command."),
            example: String::from_str("RUN apt-get update && apt-get install -y curl"),
        },
    ));
    v.push((
        String::from_str("CMD"),
        DockerfileCommand {
            description: String::from_str("Provides default commands for an executing container."),
            side_effect: String::from_str("Sets the command to run when the container starts."),
            example: String::from_str("CMD [\"echo\", \"Hello World\"]"),
        },
    ));
    v.push((
        String::from_str("LABEL"),
        DockerfileCommand {
            description: String::from_str("Adds metadata to an image as key-value pairs."),
            side_effect: String::from_str("Adds metadata to the image."),
            example: String::from_str("LABEL version=\"1.0\" description=\"This is my container\""),
        },
    ));
    v.push((
        String::from_str("EXPOSE"),
        DockerfileCommand {
            description: String::from_str("Informs Docker that the container listens on the specified network ports at runtime."),
            side_effect: String::from_str("Documents which ports are intended to be published."),
            example: String::from_str("EXPOSE 80/tcp"),
        },
    ));
    v.push((
        String::from_str("ENV"),
        DockerfileCommand {
            description: String::from_str("Sets environment variables for subsequent instructions."),
            side_effect: String::from_str("Sets environment variables that persist when a container is run."),
            example: String::from_str("ENV PATH=/usr/local/bin:$PATH"),
        },
    ));
    v.push((
        String::from_str("ADD"),
        DockerfileCommand {
            description: String::from_str("Copies new files, directories, or remote file URLs to the filesystem of the container."),
            side_effect: String::from_str("Adds files to the image, can unpack compressed files and fetch remote URLs."),
            example: String::from_str("ADD hom* /mydir/"),
        },
    ));
    v.push((
        String::from_str("COPY"),
        DockerfileCommand {
            description: String::from_str("Copies new files or directories to the filesystem of the container."),
            side_effect: String::from_str("Adds files to the image (simpler than ADD, preferred for most cases)."),
            example: String::from_str("COPY . /app"),
        },
    ));
    v.push((
        String::from_str("ENTRYPOINT"),
        DockerfileCommand {
            description: String::from_str("Configures a container to run as an executable."),
            side_effect: String::from_str("Sets the primary command that is executed when the container starts."),
            example: String::from_str("ENTRYPOINT [\"nginx\", \"-g\", \"daemon off;\"]"),
        },
    ));
    v.push((
        String::from_str("VOLUME"),
        DockerfileCommand {
            description: String::from_str("Creates a mount point with the specified name."),
            side_effect: String::from_str("Creates a mount point and marks it to hold externally mounted volumes."),
            example: String::from_str("VOLUME [\"/data\"]"),
        },
    ));
    v.push((
        String::from_str("USER"),
        DockerfileCommand {
            description: String::from_str("Sets the user name or UID to use when running the image."),
            side_effect: String::from_str("Changes the user for subsequent instructions and when running the container."),
            example: String::from_str("USER www-data"),
        },
    ));
    v.push((
        String::from_str("WORKDIR"),
        DockerfileCommand {
            description: String::from_str("Sets the working directory for subsequent instructions."),
            side_effect: String::from_str("Changes the working directory for subsequent instructions and when running the container."),
            example: String::from_str("WORKDIR /app"),
        },
    ));
    v.push((
        String::from_str("ARG"),
        DockerfileCommand {
            description: String::from_str("Defines a variable that users can pass at build-time."),
            side_effect: String::from_str("Defines a build-time variable that can be passed with docker build --build-arg."),
            example: String::from_str("ARG VERSION=latest"),
        },
    ));
    v.push((
        String::from_str("ONBUILD"),
        DockerfileCommand {
            description: String::from_str("Adds a trigger instruction to be executed when the image is used as the base for another build."),
            side_effect: String::from_str("Registers a build instruction to be executed later, when the image is used as a base."),
            example: String::from_str("ONBUILD ADD . /app/src"),
        },
    ));
    v.push((
        String::from_str("STOPSIGNAL"),
        DockerfileCommand {
            description: String::from_str("Sets the system call signal that will be sent to the container to exit."),
            side_effect: String::from_str("Sets the signal that will be used to stop the container."),
            example: String::from_str("STOPSIGNAL SIGTERM"),
        },
    ));
    v.push((
        String::from_str("HEALTHCHECK"),
        DockerfileCommand {
            description: String::from_str("Tells Docker how to test a container to check that it is still working."),
            side_effect: String::from_str("Configures a command to run periodically to check container health."),
            example: String::from_str("HEALTHCHECK --interval=5m --timeout=3s CMD curl -f http://localhost/ || exit 1"),
        },
    ));
    v.push((
        String::from_str("SHELL"),
        DockerfileCommand {
            description: String::from_str("Overrides the default shell used for the shell form of commands."),
            side_effect: String::from_str("Changes the default shell used for shell commands."),
            example: String::from_str("SHELL [\"/bin/bash\", \"-c\"]"),
        },
    ));
    assert(command_views(v@) =~= command_table());
    v
}

} // verus!

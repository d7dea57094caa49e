<?xml version="1.0" encoding="UTF-8"?>
<interface>
  <requires lib="gtk" version="4.10"/>
  <object class="GtkStringList" id="checkpoints"/>
  <object class="GtkBox" id="root">
    <property name="orientation">vertical</property>
    <property name="spacing">10</property>
    <property name="margin-start">12</property>
    <property name="margin-end">12</property>
    <property name="margin-top">12</property>
    <property name="margin-bottom">12</property>
    <child><object class="GtkLabel">
      <property name="label">Select a checkpoint to preview restore changes</property>
      <property name="xalign">0</property>
      <style><class name="restore-preview-heading"/></style>
    </object></child>
    <child>
      <object class="GtkBox">
        <property name="spacing">8</property>
        <child><object class="GtkDropDown" id="dropdown">
          <property name="model">checkpoints</property>
          <property name="hexpand">true</property>
          <style><class name="restore-preview-checkpoints"/></style>
        </object></child>
        <child><object class="GtkButton" id="close"><property name="label">Close</property></object></child>
      </object>
    </child>
    <child><object class="GtkLabel" id="summary">
      <property name="xalign">0</property>
      <style><class name="restore-preview-summary"/></style>
    </object></child>
    <child><object class="GtkLabel" id="git_warning">
      <property name="xalign">0</property>
      <property name="wrap">true</property>
      <property name="wrap-mode">word-char</property>
      <property name="visible">false</property>
      <style><class name="restore-preview-git-warning"/></style>
    </object></child>
    <child><object class="GtkLabel" id="status">
      <property name="xalign">0</property>
      <style><class name="dim-label"/></style>
    </object></child>
    <child>
      <object class="GtkBox">
        <property name="orientation">vertical</property>
        <property name="spacing">8</property>
        <style><class name="restore-preview-context"/></style>
        <child>
          <object class="GtkBox">
            <property name="orientation">vertical</property>
            <property name="spacing">4</property>
            <style><class name="restore-preview-card"/></style>
            <child><object class="GtkLabel">
              <property name="label">User Prompt</property>
              <property name="xalign">0</property>
              <style><class name="restore-preview-card-title"/></style>
            </object></child>
            <child><object class="GtkLabel" id="user_preview">
              <property name="xalign">0</property>
              <property name="wrap">true</property>
              <property name="wrap-mode">word-char</property>
              <style><class name="restore-preview-card-body"/></style>
            </object></child>
          </object>
        </child>
        <child>
          <object class="GtkBox">
            <property name="orientation">vertical</property>
            <property name="spacing">4</property>
            <style><class name="restore-preview-card"/></style>
            <child><object class="GtkLabel">
              <property name="label">Assistant Response</property>
              <property name="xalign">0</property>
              <style><class name="restore-preview-card-title"/></style>
            </object></child>
            <child><object class="GtkLabel" id="assistant_preview">
              <property name="xalign">0</property>
              <property name="wrap">true</property>
              <property name="wrap-mode">word-char</property>
              <style><class name="restore-preview-card-body"/></style>
            </object></child>
          </object>
        </child>
      </object>
    </child>
    <child>
      <object class="GtkScrolledWindow">
        <property name="hscrollbar-policy">never</property>
        <property name="min-content-height">320</property>
        <child><object class="GtkListBox" id="list">
          <style><class name="navigation-sidebar"/></style>
        </object></child>
      </object>
    </child>
    <child>
      <object class="GtkBox">
        <property name="spacing">8</property>
        <child><object class="GtkLabel">
          <property name="label">Conflicts are blocked by default. Toggle Force per file for future apply step.</property>
          <property name="xalign">0</property>
          <property name="hexpand">true</property>
          <style><class name="dim-label"/></style>
        </object></child>
        <child><object class="GtkButton" id="undo"><property name="label">Undo Last Restore</property></object></child>
        <child><object class="GtkButton" id="apply"><property name="label">Restore</property></object></child>
      </object>
    </child>
  </object>
</interface>
